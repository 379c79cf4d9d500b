//! The windows that a saved session asks for.

use crate::brave;
use crate::config;
use crate::config::{AppConfigView, Config, ConfigView};
use crate::lists;
use crate::lists::{Ordered, Table};
use crate::restore::identity;
use crate::restore::launch;
use crate::restore::report::{RestoreError, RestoreErrorView, MAX_RECONCILIATION_WINDOWS};
use crate::restore::windows;
use crate::session;
use crate::session::{
    BraveProfile, BraveProfileView, LaunchInfo, LaunchInfoView, Session, SessionClient,
    SessionClientView, SessionView,
};
use crate::text;
use crate::webapps;
use vstd::prelude::*;

verus! {

// ── Brave profiles ─────────────────────────────────────────────────────────

/// The settings of Brave.
pub open spec fn brave_settings(settings: ConfigView) -> Option<AppConfigView> {
    config::app_for(settings.apps, "brave-browser"@, ""@)
}

/// Which workspace the user gave to which profile of Brave.
pub open spec fn brave_mapping(settings: ConfigView) -> Option<Seq<(Seq<char>, i32)>> {
    match brave_settings(settings) {
        Some(app) => app.profile_workspaces,
        None => None,
    }
}

/// The number of Brave windows among some.
pub open spec fn brave_count(clients: Seq<SessionClientView>) -> nat
    decreases clients.len(),
{
    if clients.len() == 0 {
        0
    } else {
        brave_count(clients.drop_last()) + if launch::is_brave(clients.last()) {
            1nat
        } else {
            0
        }
    }
}

/// Some Brave window could not be told from others.
pub open spec fn has_ambiguous_brave(clients: Seq<SessionClientView>) -> bool {
    exists|i: int|
        0 <= i < clients.len() && launch::is_brave(#[trigger] clients[i])
            && clients[i].profile_identity_ambiguous
}

/// The profiles of the saved Brave windows.
pub open spec fn saved_profiles(clients: Seq<SessionClientView>) -> Seq<Seq<char>>
    decreases clients.len(),
{
    if clients.len() == 0 {
        Seq::empty()
    } else {
        let before = saved_profiles(clients.drop_last());
        let client = clients.last();
        if launch::is_brave(client) && identity::is_known(client.profile_directory) {
            before.push(client.profile_directory->0)
        } else {
            before
        }
    }
}

/// The profiles that the saved Brave windows show, each once, with the title
/// of the first window that shows it.
pub open spec fn shown_profiles(clients: Seq<SessionClientView>) -> Seq<BraveProfileView>
    decreases clients.len(),
{
    if clients.len() == 0 {
        Seq::empty()
    } else {
        let before = shown_profiles(clients.drop_last());
        let client = clients.last();
        if launch::is_brave(client) && identity::is_known(client.profile_directory)
            && !has_profile(before, client.profile_directory->0) {
            before.push(
                BraveProfileView { directory: client.profile_directory->0, name: client.title },
            )
        } else {
            before
        }
    }
}

/// A profile is among some, up to case.
pub open spec fn has_profile(profiles: Seq<BraveProfileView>, directory: Seq<char>) -> bool {
    exists|i: int|
        0 <= i < profiles.len() && text::same_ignoring_case(
            (#[trigger] profiles[i]).directory,
            directory,
        )
}

/// The profiles that a session knows of, where a mapping is given.
pub open spec fn profile_inventory(session: SessionView) -> Seq<BraveProfileView> {
    if session.brave_profiles.len() == 0 {
        shown_profiles(session.clients)
    } else {
        session.brave_profiles
    }
}

/// The profiles of Brave to open; nothing where the saved windows themselves
/// are to be opened.
pub open spec fn profile_targets(
    session: SessionView,
    settings: ConfigView,
) -> Option<Seq<BraveProfileView>> {
    match brave_mapping(settings) {
        Some(mapping) => {
            let inventory = profile_inventory(session);
            if mapping.len() > 0 && brave_count(session.clients) > 0 && saved_profiles(
                session.clients,
            ).len() == 0 && inventory.len() == 0 {
                None
            } else {
                Some(brave::with_mapping(inventory, Some(mapping)))
            }
        },
        None => if session.brave_profiles.len() == 0 {
            None
        } else if saved_profiles(session.clients).len() > 0 {
            Some(brave::in_use(session.brave_profiles, saved_profiles(session.clients)))
        } else if brave_count(session.clients) == 0 || (!has_ambiguous_brave(session.clients)
            && brave_count(session.clients) == 1 && session.brave_profiles.len() == 1) {
            Some(session.brave_profiles)
        } else {
            Some(Seq::empty())
        },
    }
}

fn count_brave_clients(clients: &Vec<SessionClient>) -> (r: usize)
    ensures
        r == brave_count(clients.deep_view()),
{
    let ghost all = clients.deep_view();
    let mut count: usize = 0;
    let mut i: usize = 0;
    assert(all.take(0) =~= Seq::<SessionClientView>::empty());
    while i < clients.len()
        invariant
            i <= clients.len(),
            all == clients.deep_view(),
            count <= i,
            count == brave_count(all.take(i as int)),
        decreases clients.len() - i,
    {
        assert(all[i as int] == clients[i as int]@);
        assert(all.take(i + 1).drop_last() =~= all.take(i as int));
        assert(all.take(i + 1).last() == all[i as int]);
        if launch::is_brave_client(&clients[i]) {
            count += 1;
        }
        i += 1;
    }
    assert(all.take(i as int) =~= all);
    count
}

fn any_ambiguous_brave(clients: &Vec<SessionClient>) -> (r: bool)
    ensures
        r == has_ambiguous_brave(clients.deep_view()),
{
    let ghost all = clients.deep_view();
    let mut i: usize = 0;
    while i < clients.len()
        invariant
            i <= clients.len(),
            all == clients.deep_view(),
            forall|k: int|
                0 <= k < i ==> !(launch::is_brave(#[trigger] all[k])
                    && all[k].profile_identity_ambiguous),
        decreases clients.len() - i,
    {
        assert(all[i as int] == clients[i as int]@);
        if launch::is_brave_client(&clients[i]) && clients[i].profile_identity_ambiguous {
            return true;
        }
        i += 1;
    }
    false
}

fn collect_saved_profiles(clients: &Vec<SessionClient>) -> (r: Vec<String>)
    ensures
        r.deep_view() == saved_profiles(clients.deep_view()),
{
    let ghost all = clients.deep_view();
    let mut out: Vec<String> = Vec::new();
    let mut i: usize = 0;
    assert(all.take(0) =~= Seq::<SessionClientView>::empty());
    assert(out.deep_view() =~= Seq::<Seq<char>>::empty());
    while i < clients.len()
        invariant
            i <= clients.len(),
            all == clients.deep_view(),
            out.deep_view() == saved_profiles(all.take(i as int)),
        decreases clients.len() - i,
    {
        let client = &clients[i];
        assert(all[i as int] == client@);
        assert(all.take(i + 1).drop_last() =~= all.take(i as int));
        assert(all.take(i + 1).last() == all[i as int]);
        if launch::is_brave_client(client) && identity::is_present(&client.profile_directory) {
            if let Some(directory) = &client.profile_directory {
                let ghost before = out.deep_view();
                let copy = directory.clone();
                out.push(copy);
                assert(out.deep_view() =~= before.push(directory@));
            }
        }
        i += 1;
    }
    assert(all.take(i as int) =~= all);
    out
}

fn lists_profile(profiles: &Vec<BraveProfile>, directory: &str) -> (r: bool)
    ensures
        r == has_profile(profiles.deep_view(), directory@),
{
    let ghost all = profiles.deep_view();
    let mut i: usize = 0;
    while i < profiles.len()
        invariant
            i <= profiles.len(),
            all == profiles.deep_view(),
            forall|k: int|
                0 <= k < i ==> !text::same_ignoring_case(
                    (#[trigger] all[k]).directory,
                    directory@,
                ),
        decreases profiles.len() - i,
    {
        assert(all[i as int] == profiles[i as int]@);
        if text::eq_ignore_case(profiles[i].directory.as_str(), directory) {
            return true;
        }
        i += 1;
    }
    false
}

fn collect_shown_profiles(clients: &Vec<SessionClient>) -> (r: Vec<BraveProfile>)
    ensures
        r.deep_view() == shown_profiles(clients.deep_view()),
{
    let ghost all = clients.deep_view();
    let mut out: Vec<BraveProfile> = Vec::new();
    let mut i: usize = 0;
    assert(all.take(0) =~= Seq::<SessionClientView>::empty());
    assert(out.deep_view() =~= Seq::<BraveProfileView>::empty());
    while i < clients.len()
        invariant
            i <= clients.len(),
            all == clients.deep_view(),
            out.deep_view() == shown_profiles(all.take(i as int)),
        decreases clients.len() - i,
    {
        let client = &clients[i];
        assert(all[i as int] == client@);
        assert(all.take(i + 1).drop_last() =~= all.take(i as int));
        assert(all.take(i + 1).last() == all[i as int]);
        if launch::is_brave_client(client) && identity::is_present(&client.profile_directory) {
            if let Some(directory) = &client.profile_directory {
                if !lists_profile(&out, directory.as_str()) {
                    let ghost before = out.deep_view();
                    let profile = BraveProfile {
                        directory: directory.clone(),
                        name: client.title.clone(),
                    };
                    out.push(profile);
                    assert(out.deep_view() =~= before.push(profile@));
                }
            }
        }
        i += 1;
    }
    assert(all.take(i as int) =~= all);
    out
}

/// Copies profiles.
fn copy_profiles(profiles: &Vec<BraveProfile>) -> (r: Vec<BraveProfile>)
    ensures
        r.deep_view() == profiles.deep_view(),
{
    let ghost all = profiles.deep_view();
    let mut out: Vec<BraveProfile> = Vec::new();
    let mut i: usize = 0;
    assert(out.deep_view() =~= all.take(0));
    while i < profiles.len()
        invariant
            i <= profiles.len(),
            all == profiles.deep_view(),
            out.deep_view() == all.take(i as int),
        decreases profiles.len() - i,
    {
        let profile = &profiles[i];
        assert(all[i as int] == profile@);
        let copy = profile.clone();
        let ghost before = out.deep_view();
        out.push(copy);
        assert(out.deep_view() =~= before.push(profile@));
        assert(all.take(i + 1) =~= before.push(all[i as int]));
        i += 1;
    }
    assert(all.take(i as int) =~= all);
    out
}

/// The profiles in an optional list.
pub open spec fn profiles_of(profiles: Option<Vec<BraveProfile>>) -> Option<Seq<BraveProfileView>> {
    match profiles {
        Some(list) => Some(list.deep_view()),
        None => None,
    }
}

/// The profiles of Brave to open.
pub fn brave_profile_targets(session: &Session, config: &Config) -> (r: Option<Vec<BraveProfile>>)
    ensures
        profiles_of(r) == profile_targets(session@, config@),
{
    let known = collect_saved_profiles(&session.clients);
    let brave_clients = count_brave_clients(&session.clients);
    if let Some(app) = config::app_config_for(config, "brave-browser", "") {
        if let Some(workspaces) = &app.profile_workspaces {
            let inventory = if session.brave_profiles.len() == 0 {
                collect_shown_profiles(&session.clients)
            } else {
                copy_profiles(&session.brave_profiles)
            };
            if !workspaces.is_empty() && brave_clients > 0 && known.len() == 0
                && inventory.len() == 0 {
                // Do not turn missing identity into a successful restore of
                // nothing; the raw windows are reported instead.
                return None;
            }
            return Some(brave::filter_profiles_by_config(inventory, Some(workspaces)));
        }
    }
    if session.brave_profiles.len() == 0 {
        return None;
    }
    let inventory = copy_profiles(&session.brave_profiles);
    if known.len() > 0 {
        return Some(
            brave::filter_profiles_by_active_directories(inventory, known.as_slice()),
        );
    }
    if brave_clients == 0 || (!any_ambiguous_brave(&session.clients) && brave_clients == 1
        && inventory.len() == 1) {
        return Some(inventory);
    }
    let nothing: Vec<BraveProfile> = Vec::new();
    assert(nothing.deep_view() =~= Seq::<BraveProfileView>::empty());
    Some(nothing)
}

// ── Web applications ───────────────────────────────────────────────────────

/// A launch command that only repeats the class of a web application.
pub open spec fn is_legacy_command(client: SessionClientView) -> bool {
    client.launch.command.len() == 0 || launch::is_own_class(client, client.launch.command)
}

/// A saved window with the launcher that the desktop entries record for it.
pub open spec fn hydrated(
    client: SessionClientView,
    settings: ConfigView,
    entries: Seq<Seq<char>>,
) -> SessionClientView {
    if !launch::is_webapp(client) || launch::configured_binary(client, settings) is Some
        || !is_legacy_command(client) {
        client
    } else {
        match webapps::discovered_launch(client.class, client.initial_class, entries) {
            Some(found) => SessionClientView { launch: found, ..client },
            None => client,
        }
    }
}

/// Gives a saved window the launcher that the desktop entries record for it.
pub fn hydrate_webapp_launch(client: &SessionClient, config: &Config, entries: &[String]) -> (r:
    SessionClient)
    ensures
        r@ == hydrated(client@, config@, entries.deep_view()),
{
    let mut hydrated_client = client.clone();
    if !launch::is_webapp_class(client) {
        return hydrated_client;
    }
    if let Some(app) = config::app_config_for(
        config,
        client.class.as_str(),
        client.initial_class.as_str(),
    ) {
        if app.binary.is_some() {
            return hydrated_client;
        }
    }
    let command = client.launch.command.as_str();
    if !command.is_empty() && !launch::owns_class(client, command) {
        return hydrated_client;
    }
    if let Some(found) = webapps::discover_webapp_launch_info(
        client.class.as_str(),
        client.initial_class.as_str(),
        entries,
    ) {
        hydrated_client.launch = found;
    }
    hydrated_client
}

// ── Targets ────────────────────────────────────────────────────────────────

/// A window to restore and what it is called in reports.
#[derive(Debug)]
pub struct ReconcileTarget {
    /// The window.
    pub client: SessionClient,
    /// What it is called.
    pub label: String,
}

#[verifier::ext_equal]
pub ghost struct ReconcileTargetView {
    pub client: SessionClientView,
    pub label: Seq<char>,
}

impl View for ReconcileTarget {
    type V = ReconcileTargetView;

    open spec fn view(&self) -> ReconcileTargetView {
        ReconcileTargetView { client: self.client@, label: self.label@ }
    }
}

impl DeepView for ReconcileTarget {
    type V = ReconcileTargetView;

    open spec fn deep_view(&self) -> ReconcileTargetView {
        self@
    }
}

/// A window that stands on an earlier workspace, or higher, or further left.
pub open spec fn stands_before(a: SessionClientView, b: SessionClientView) -> bool {
    ||| a.workspace < b.workspace
    ||| a.workspace == b.workspace && a.at.1 < b.at.1
    ||| a.workspace == b.workspace && a.at.1 == b.at.1 && a.at.0 < b.at.0
}

/// Two windows on one workspace at one place.
pub open spec fn stands_with(a: SessionClientView, b: SessionClientView) -> bool {
    a.workspace == b.workspace && a.at == b.at
}

fn client_stands_before(a: &SessionClient, b: &SessionClient) -> (r: bool)
    ensures
        r == stands_before(a@, b@),
{
    a.workspace < b.workspace || (a.workspace == b.workspace && (a.at[1] < b.at[1] || (a.at[1]
        == b.at[1] && a.at[0] < b.at[0])))
}

fn client_stands_with(a: &SessionClient, b: &SessionClient) -> (r: bool)
    ensures
        r == stands_with(a@, b@),
{
    a.workspace == b.workspace && a.at[1] == b.at[1] && a.at[0] == b.at[0]
}

/// Windows are restored by workspace, from top to bottom and left to right.
impl Ordered for SessionClient {
    open spec fn precedes(a: SessionClientView, b: SessionClientView) -> bool {
        stands_before(a, b)
    }

    fn goes_before(&self, other: &Self) -> (r: bool) {
        client_stands_before(self, other)
    }
}

/// Targets at one place are restored by name.
impl Ordered for ReconcileTarget {
    open spec fn precedes(a: ReconcileTargetView, b: ReconcileTargetView) -> bool {
        stands_before(a.client, b.client) || (stands_with(a.client, b.client)
            && text::comes_before(a.label, b.label))
    }

    fn goes_before(&self, other: &Self) -> (r: bool) {
        client_stands_before(&self.client, &other.client) || (client_stands_with(
            &self.client,
            &other.client,
        ) && text::is_before(self.label.as_str(), other.label.as_str()))
    }
}

/// The target of a saved window.
pub open spec fn named(client: SessionClientView) -> ReconcileTargetView {
    ReconcileTargetView { client, label: client.class + " '"@ + client.title + "'"@ }
}

/// A saved window is restored by itself, not through a profile.
pub open spec fn is_plain(
    client: SessionClientView,
    settings: ConfigView,
    by_profile: bool,
) -> bool {
    windows::is_wanted(settings, client) && !(by_profile && launch::is_brave(client))
}

/// The targets of the windows that are restored by themselves.
pub open spec fn plain_targets(
    clients: Seq<SessionClientView>,
    settings: ConfigView,
    entries: Seq<Seq<char>>,
    by_profile: bool,
) -> Seq<ReconcileTargetView>
    decreases clients.len(),
{
    if clients.len() == 0 {
        Seq::empty()
    } else {
        let before = plain_targets(clients.drop_last(), settings, entries, by_profile);
        let client = clients.last();
        if is_plain(client, settings, by_profile) {
            before.push(named(hydrated(client, settings, entries)))
        } else {
            before
        }
    }
}

fn build_plain_targets(
    clients: &Vec<SessionClient>,
    config: &Config,
    entries: &[String],
    by_profile: bool,
) -> (r: Vec<ReconcileTarget>)
    ensures
        r.deep_view() == plain_targets(
            clients.deep_view(),
            config@,
            entries.deep_view(),
            by_profile,
        ),
{
    let ghost all = clients.deep_view();
    let mut out: Vec<ReconcileTarget> = Vec::new();
    let mut i: usize = 0;
    assert(all.take(0) =~= Seq::<SessionClientView>::empty());
    assert(out.deep_view() =~= Seq::<ReconcileTargetView>::empty());
    while i < clients.len()
        invariant
            i <= clients.len(),
            all == clients.deep_view(),
            out.deep_view() == plain_targets(
                all.take(i as int),
                config@,
                entries.deep_view(),
                by_profile,
            ),
        decreases clients.len() - i,
    {
        let saved = &clients[i];
        assert(all[i as int] == saved@);
        assert(all.take(i + 1).drop_last() =~= all.take(i as int));
        assert(all.take(i + 1).last() == all[i as int]);
        if windows::client_is_wanted(saved, config) && !(by_profile && launch::is_brave_client(
            saved,
        )) {
            let client = hydrate_webapp_launch(saved, config, entries);
            let label = client.class.clone().concat(" '").concat(client.title.as_str()).concat("'");
            let target = ReconcileTarget { client, label };
            let ghost before = out.deep_view();
            out.push(target);
            assert(out.deep_view() =~= before.push(target@));
        }
        i += 1;
    }
    assert(all.take(i as int) =~= all);
    out
}

// ── Targets of profiles ────────────────────────────────────────────────────

/// The executable of Brave.
pub open spec fn brave_binary(settings: ConfigView) -> Seq<char> {
    match brave_settings(settings) {
        Some(app) => match app.binary {
            Some(binary) => binary,
            None => "brave"@,
        },
        None => "brave"@,
    }
}

/// The workspace of Brave.
pub open spec fn brave_workspace(settings: ConfigView) -> i32 {
    match brave_settings(settings) {
        Some(app) => match app.default_workspace {
            Some(workspace) => workspace,
            None => 1,
        },
        None => 1,
    }
}

/// The workspace of a profile.
pub open spec fn profile_workspace(settings: ConfigView, directory: Seq<char>) -> i32 {
    match brave_mapping(settings) {
        Some(mapping) => match lists::value_at(mapping, directory) {
            Some(workspace) => workspace,
            None => brave_workspace(settings),
        },
        None => brave_workspace(settings),
    }
}

/// The first place, from `i` on, of a window that is not used and shows a
/// profile.
pub open spec fn showing_from(
    clients: Seq<SessionClientView>,
    used: Seq<bool>,
    directory: Seq<char>,
    i: int,
) -> Option<int>
    decreases clients.len() - i,
{
    if i < 0 || i >= clients.len() {
        None
    } else if !used[i] && clients[i].profile_directory is Some && text::same_ignoring_case(
        clients[i].profile_directory->0,
        directory,
    ) {
        Some(i)
    } else {
        showing_from(clients, used, directory, i + 1)
    }
}

/// The first place, from `i` on, that is not used.
pub open spec fn unused_from(used: Seq<bool>, i: int) -> Option<int>
    decreases used.len() - i,
{
    if i < 0 || i >= used.len() {
        None
    } else if !used[i] {
        Some(i)
    } else {
        unused_from(used, i + 1)
    }
}

/// The place of the window that a profile takes: one that shows it, else any
/// that is left.
pub open spec fn place_taken(
    clients: Seq<SessionClientView>,
    used: Seq<bool>,
    directory: Seq<char>,
) -> Option<int> {
    match showing_from(clients, used, directory, 0) {
        Some(i) => Some(i),
        None => unused_from(used, 0),
    }
}

/// A Brave window where none was saved.
pub open spec fn blank_brave(name: Seq<char>, settings: ConfigView) -> SessionClientView {
    SessionClientView {
        class: "brave-browser"@,
        title: name,
        address: None,
        pid: None,
        process_start_time: None,
        stable_id: None,
        initial_class: "brave-browser"@,
        initial_title: "Brave"@,
        workspace: brave_workspace(settings) as int,
        workspace_name: text::decimal(brave_workspace(settings) as int),
        monitor: ""@,
        at: (0, 0),
        size: (1280, 800),
        floating: false,
        fullscreen: 0,
        pinned: false,
        profile_directory: None,
        profile_identity_ambiguous: false,
        focus_history_id: 0,
        launch: LaunchInfoView {
            command: brave_binary(settings),
            args: Seq::empty(),
            hint: None,
        },
    }
}

/// The window on which the target of a profile is based.
pub open spec fn profile_base(
    clients: Seq<SessionClientView>,
    taken: Option<int>,
    name: Seq<char>,
    settings: ConfigView,
) -> SessionClientView {
    match taken {
        Some(i) => clients[i],
        None => if clients.len() > 0 {
            clients[0]
        } else {
            blank_brave(name, settings)
        },
    }
}

/// The target of a profile.
pub open spec fn profile_target(
    base: SessionClientView,
    profile: BraveProfileView,
    settings: ConfigView,
) -> ReconcileTargetView {
    let workspace = profile_workspace(settings, profile.directory);
    ReconcileTargetView {
        client: SessionClientView {
            workspace: workspace as int,
            workspace_name: text::decimal(workspace as int),
            profile_directory: Some(profile.directory),
            profile_identity_ambiguous: false,
            launch: LaunchInfoView {
                command: brave_binary(settings),
                args: seq!["--profile-directory="@ + profile.directory],
                hint: None,
            },
            ..base
        },
        label: "brave profile '"@ + profile.name + "'"@,
    }
}

/// A profile that an explicit mapping leaves out.
pub open spec fn is_left_out(settings: ConfigView, directory: Seq<char>) -> bool {
    match brave_mapping(settings) {
        Some(mapping) => lists::value_at(mapping, directory) is None,
        None => false,
    }
}

/// The targets of some profiles, and which of the saved windows they take.
pub open spec fn profile_plan(
    profiles: Seq<BraveProfileView>,
    clients: Seq<SessionClientView>,
    settings: ConfigView,
) -> (Seq<ReconcileTargetView>, Seq<bool>)
    decreases profiles.len(),
{
    if profiles.len() == 0 {
        (Seq::empty(), Seq::new(clients.len(), |i: int| false))
    } else {
        let before = profile_plan(profiles.drop_last(), clients, settings);
        let profile = profiles.last();
        if is_left_out(settings, profile.directory) {
            before
        } else {
            let taken = place_taken(clients, before.1, profile.directory);
            let base = profile_base(clients, taken, profile.name, settings);
            (
                before.0.push(profile_target(base, profile, settings)),
                match taken {
                    Some(i) => before.1.update(i, true),
                    None => before.1,
                },
            )
        }
    }
}

/// The saved Brave windows in order.
pub open spec fn brave_windows(
    clients: Seq<SessionClientView>,
    settings: ConfigView,
) -> Seq<SessionClientView> {
    lists::sorted(
        clients.filter(
            |c: SessionClientView| launch::is_brave(c) && windows::is_wanted(settings, c),
        ),
        |a: SessionClientView, b: SessionClientView| SessionClient::precedes(a, b),
    )
}

fn find_showing(clients: &Vec<SessionClient>, used: &Vec<bool>, directory: &str) -> (r: Option<
    usize,
>)
    requires
        clients.len() == used.len(),
    ensures
        match r {
            Some(i) => i < clients.len() && showing_from(
                clients.deep_view(),
                used@,
                directory@,
                0,
            ) == Some(i as int),
            None => showing_from(clients.deep_view(), used@, directory@, 0) is None,
        },
{
    let ghost all = clients.deep_view();
    let mut i: usize = 0;
    while i < clients.len()
        invariant
            clients.len() == used.len(),
            i <= clients.len(),
            all == clients.deep_view(),
            showing_from(all, used@, directory@, 0) == showing_from(
                all,
                used@,
                directory@,
                i as int,
            ),
        decreases clients.len() - i,
    {
        assert(all[i as int] == clients[i as int]@);
        if !used[i] {
            if let Some(shown) = &clients[i].profile_directory {
                if text::eq_ignore_case(shown.as_str(), directory) {
                    return Some(i);
                }
            }
        }
        i += 1;
    }
    None
}

fn find_unused(used: &Vec<bool>) -> (r: Option<usize>)
    ensures
        match r {
            Some(i) => i < used.len() && unused_from(used@, 0) == Some(i as int),
            None => unused_from(used@, 0) is None,
        },
{
    let mut i: usize = 0;
    while i < used.len()
        invariant
            i <= used.len(),
            unused_from(used@, 0) == unused_from(used@, i as int),
        decreases used.len() - i,
    {
        if !used[i] {
            return Some(i);
        }
        i += 1;
    }
    None
}

fn find_brave_binary(config: &Config) -> (r: String)
    ensures
        r@ == brave_binary(config@),
{
    if let Some(app) = config::app_config_for(config, "brave-browser", "") {
        if let Some(binary) = &app.binary {
            return binary.clone();
        }
    }
    "brave".to_owned()
}

fn find_brave_workspace(config: &Config) -> (r: i32)
    ensures
        r == brave_workspace(config@),
{
    if let Some(app) = config::app_config_for(config, "brave-browser", "") {
        if let Some(workspace) = app.default_workspace {
            return workspace;
        }
    }
    1
}

fn find_profile_workspace(config: &Config, directory: &str) -> (r: i32)
    ensures
        r == profile_workspace(config@, directory@),
{
    if let Some(app) = config::app_config_for(config, "brave-browser", "") {
        if let Some(workspaces) = &app.profile_workspaces {
            if let Some(workspace) = workspaces.get(directory) {
                return *workspace;
            }
        }
    }
    find_brave_workspace(config)
}

fn leaves_out(config: &Config, directory: &str) -> (r: bool)
    ensures
        r == is_left_out(config@, directory@),
{
    if let Some(app) = config::app_config_for(config, "brave-browser", "") {
        if let Some(workspaces) = &app.profile_workspaces {
            return !workspaces.contains_key(directory);
        }
    }
    false
}

fn make_blank_brave(name: &str, config: &Config) -> (r: SessionClient)
    ensures
        r@ == blank_brave(name@, config@),
{
    let workspace = find_brave_workspace(config);
    let r = SessionClient {
        class: "brave-browser".to_owned(),
        title: name.to_owned(),
        address: None,
        pid: None,
        process_start_time: None,
        stable_id: None,
        initial_class: "brave-browser".to_owned(),
        initial_title: "Brave".to_owned(),
        workspace,
        workspace_name: text::number_text(workspace as i64),
        monitor: "".to_owned(),
        at: [0, 0],
        size: [1280, 800],
        floating: false,
        fullscreen: 0,
        pinned: false,
        profile_directory: None,
        profile_identity_ambiguous: false,
        focus_history_id: 0,
        launch: LaunchInfo { command: find_brave_binary(config), args: Vec::new(), hint: None },
    };
    assert(r@.launch.args =~= Seq::<Seq<char>>::empty());
    assert(r@ =~= blank_brave(name@, config@));
    r
}

fn make_profile_target(base: SessionClient, profile: &BraveProfile, config: &Config) -> (r:
    ReconcileTarget)
    ensures
        r@ == profile_target(base@, profile@, config@),
{
    let directory = profile.directory.as_str();
    let mut client = base;
    let workspace = find_profile_workspace(config, directory);
    client.workspace = workspace;
    client.workspace_name = text::number_text(workspace as i64);
    client.profile_directory = Some(profile.directory.clone());
    client.profile_identity_ambiguous = false;
    let mut args: Vec<String> = Vec::new();
    args.push("--profile-directory=".to_owned().concat(directory));
    client.launch = LaunchInfo { command: find_brave_binary(config), args, hint: None };
    let label = "brave profile '".to_owned().concat(profile.name.as_str()).concat("'");
    let r = ReconcileTarget { client, label };
    assert(r@.client.launch.args =~= seq!["--profile-directory="@ + profile@.directory]);
    assert(r@ =~= profile_target(base@, profile@, config@));
    r
}

fn pick_brave_windows(clients: &Vec<SessionClient>, config: &Config) -> (r: Vec<SessionClient>)
    ensures
        r.deep_view() == brave_windows(clients.deep_view(), config@),
{
    let ghost all = clients.deep_view();
    let ghost keep = |c: SessionClientView| launch::is_brave(c) && windows::is_wanted(config@, c);
    let mut out: Vec<SessionClient> = Vec::new();
    let mut i: usize = 0;
    proof {
        reveal(Seq::filter);
        assert(out.deep_view() =~= all.take(0).filter(keep));
    }
    while i < clients.len()
        invariant
            i <= clients.len(),
            all == clients.deep_view(),
            keep == (|c: SessionClientView|
                launch::is_brave(c) && windows::is_wanted(config@, c)),
            out.deep_view() == all.take(i as int).filter(keep),
        decreases clients.len() - i,
    {
        let client = &clients[i];
        let ghost before = out.deep_view();
        proof {
            lists::lemma_filter_step(all, keep, i as int);
            assert(all[i as int] == client@);
        }
        if launch::is_brave_client(client) && windows::client_is_wanted(client, config) {
            let copy = client.clone();
            out.push(copy);
            assert(out.deep_view() =~= before.push(client@));
        }
        i += 1;
    }
    assert(all.take(all.len() as int) =~= all);
    lists::sort(out)
}

fn build_profile_targets(
    profiles: &Vec<BraveProfile>,
    clients: &Vec<SessionClient>,
    config: &Config,
) -> (r: Vec<ReconcileTarget>)
    ensures
        r.deep_view() == profile_plan(profiles.deep_view(), clients.deep_view(), config@).0,
{
    let ghost all = profiles.deep_view();
    let ghost saved = clients.deep_view();
    let mut out: Vec<ReconcileTarget> = Vec::new();
    let mut used: Vec<bool> = vec![false; clients.len()];
    let mut i: usize = 0;
    assert(all.take(0) =~= Seq::<BraveProfileView>::empty());
    assert(out.deep_view() =~= Seq::<ReconcileTargetView>::empty());
    assert(used@ =~= Seq::new(saved.len(), |i: int| false));
    while i < profiles.len()
        invariant
            i <= profiles.len(),
            all == profiles.deep_view(),
            saved == clients.deep_view(),
            used.len() == clients.len(),
            (out.deep_view(), used@) == profile_plan(all.take(i as int), saved, config@),
        decreases profiles.len() - i,
    {
        let profile = &profiles[i];
        assert(all[i as int] == profile@);
        assert(all.take(i + 1).drop_last() =~= all.take(i as int));
        assert(all.take(i + 1).last() == all[i as int]);
        let directory = profile.directory.as_str();
        if !leaves_out(config, directory) {
            let taken = match find_showing(clients, &used, directory) {
                Some(place) => Some(place),
                None => find_unused(&used),
            };
            let base = match taken {
                Some(place) => {
                    assert(saved[place as int] == clients[place as int]@);
                    clients[place].clone()
                },
                None => if clients.len() > 0 {
                    assert(saved[0] == clients[0]@);
                    clients[0].clone()
                } else {
                    make_blank_brave(profile.name.as_str(), config)
                },
            };
            if let Some(place) = taken {
                used.set(place, true);
            }
            let target = make_profile_target(base, profile, config);
            let ghost before = out.deep_view();
            out.push(target);
            assert(out.deep_view() =~= before.push(target@));
        }
        i += 1;
    }
    assert(all.take(i as int) =~= all);
    out
}

/// The windows that a session asks for, in the order in which they are
/// restored.
pub open spec fn reconcile_targets(
    session: SessionView,
    settings: ConfigView,
    entries: Seq<Seq<char>>,
) -> Seq<ReconcileTargetView> {
    let profiles = profile_targets(session, settings);
    let plain = plain_targets(session.clients, settings, entries, profiles is Some);
    let all = match profiles {
        Some(list) => plain + profile_plan(
            list,
            brave_windows(session.clients, settings),
            settings,
        ).0,
        None => plain,
    };
    lists::sorted(
        all,
        |a: ReconcileTargetView, b: ReconcileTargetView| ReconcileTarget::precedes(a, b),
    )
}

/// The windows that a session asks for.  `entries` are the contents of the
/// desktop entries of the system.
pub fn build_reconcile_targets(session: &Session, config: &Config, entries: &[String]) -> (r: Vec<
    ReconcileTarget,
>)
    ensures
        r.deep_view() == reconcile_targets(session@, config@, entries.deep_view()),
{
    let profiles = brave_profile_targets(session, config);
    let mut targets = build_plain_targets(&session.clients, config, entries, profiles.is_some());
    if let Some(list) = &profiles {
        let saved = pick_brave_windows(&session.clients, config);
        let mut more = build_profile_targets(list, &saved, config);
        let ghost before = targets.deep_view();
        let ghost behind = more.deep_view();
        targets.append(&mut more);
        assert(targets.deep_view() =~= before + behind);
    }
    lists::sort(targets)
}

// ── Validation ─────────────────────────────────────────────────────────────

/// The first place, from `i` on, of a Brave window without a profile that
/// identifies it.
pub open spec fn lacking_profile_from(clients: Seq<SessionClientView>, i: int) -> Option<int>
    decreases clients.len() - i,
{
    if i < 0 || i >= clients.len() {
        None
    } else if identity::lacks_profile(clients[i]) {
        Some(i)
    } else {
        lacking_profile_from(clients, i + 1)
    }
}

/// The first place, from `i` on, of a wanted Brave window without a profile
/// that identifies it.
pub open spec fn wanted_lacking_profile_from(
    clients: Seq<SessionClientView>,
    settings: ConfigView,
    i: int,
) -> Option<int>
    decreases clients.len() - i,
{
    if i < 0 || i >= clients.len() {
        None
    } else if windows::is_wanted(settings, clients[i]) && identity::lacks_profile(clients[i]) {
        Some(i)
    } else {
        wanted_lacking_profile_from(clients, settings, i + 1)
    }
}

/// The first place, from `i` on, of a window without an address.
pub open spec fn lacking_address_from(clients: Seq<SessionClientView>, i: int) -> Option<int>
    decreases clients.len() - i,
{
    if i < 0 || i >= clients.len() {
        None
    } else if !identity::is_known(clients[i].address) {
        Some(i)
    } else {
        lacking_address_from(clients, i + 1)
    }
}

/// The first place, from `i` on, of a window without a stable ID.
pub open spec fn lacking_stable_id_from(clients: Seq<SessionClientView>, i: int) -> Option<int>
    decreases clients.len() - i,
{
    if i < 0 || i >= clients.len() {
        None
    } else if !identity::is_known(clients[i].stable_id) {
        Some(i)
    } else {
        lacking_stable_id_from(clients, i + 1)
    }
}

/// The number of wanted windows.
pub open spec fn wanted_count(clients: Seq<SessionClientView>, settings: ConfigView) -> nat
    decreases clients.len(),
{
    if clients.len() == 0 {
        0
    } else {
        wanted_count(clients.drop_last(), settings) + if windows::is_wanted(
            settings,
            clients.last(),
        ) {
            1nat
        } else {
            0
        }
    }
}

/// Why a safety snapshot cannot be used at all.
pub open spec fn profile_reason(title: Seq<char>) -> Seq<char> {
    "Brave window '"@ + title + "' has no unique profile identity"@
}

/// Why a safety snapshot cannot be recovered, before its launches are looked
/// at.
pub open spec fn snapshot_problem(
    session: SessionView,
    settings: ConfigView,
    entries: Seq<Seq<char>>,
) -> Option<Seq<char>> {
    let clients = session.clients;
    let found = reconcile_targets(session, settings, entries).len();
    let expected = wanted_count(clients, settings);
    if lacking_profile_from(clients, 0) is Some {
        Some(profile_reason(clients[lacking_profile_from(clients, 0)->0].title))
    } else if lacking_address_from(clients, 0) is Some {
        Some(
            "captured window '"@ + clients[lacking_address_from(clients, 0)->0].title
                + "' has no Hyprland address for safe replacement"@,
        )
    } else if lacking_stable_id_from(clients, 0) is Some {
        Some(
            "captured window '"@ + clients[lacking_stable_id_from(clients, 0)->0].title
                + "' has no Hyprland stable window ID for safe replacement"@,
        )
    } else if found != expected {
        Some(
            "only "@ + text::digits(found) + " of "@ + text::digits(expected)
                + " captured windows have a recoverable launch target"@,
        )
    } else {
        None
    }
}

/// What is wrong with the launch of a target.
#[verifier::ext_equal]
pub ghost enum LaunchProblem {
    /// It is not authorized.
    Untrusted { label: Seq<char>, command: Seq<char> },
    /// Its executable is missing.
    Missing { label: Seq<char>, command: Seq<char> },
}

/// The first thing that is wrong with the launches of some targets, from `i`
/// on.  `binaries` are the executables that were found.
pub open spec fn launch_problem(
    targets: Seq<ReconcileTargetView>,
    settings: ConfigView,
    binaries: Seq<(Seq<char>, Seq<char>)>,
    i: int,
) -> Option<LaunchProblem>
    decreases targets.len() - i,
{
    if i < 0 || i >= targets.len() {
        None
    } else {
        let label = targets[i].label;
        let command = launch::binary_of(targets[i].client);
        if !launch::is_trusted(targets[i].client, settings) {
            Some(LaunchProblem::Untrusted { label, command })
        } else if lists::value_at(binaries, command) is None {
            Some(LaunchProblem::Missing { label, command })
        } else {
            launch_problem(targets, settings, binaries, i + 1)
        }
    }
}

/// Why the launches of a safety snapshot cannot be recovered.
pub open spec fn launch_reason(problem: LaunchProblem) -> Seq<char> {
    match problem {
        LaunchProblem::Untrusted { label, command } => {
            "launch command '"@ + command + "' for "@ + label
                + " is not authorized by app identity or config"@
        },
        LaunchProblem::Missing { label, command } => {
            "binary '"@ + command + "' for "@ + label + " is not available"@
        },
    }
}

/// Why a safety snapshot cannot be recovered.
pub open spec fn safety_problem(
    session: SessionView,
    settings: ConfigView,
    entries: Seq<Seq<char>>,
    binaries: Seq<(Seq<char>, Seq<char>)>,
) -> Option<Seq<char>> {
    match snapshot_problem(session, settings, entries) {
        Some(reason) => Some(reason),
        None => match launch_problem(
            reconcile_targets(session, settings, entries),
            settings,
            binaries,
            0,
        ) {
            Some(problem) => Some(launch_reason(problem)),
            None => None,
        },
    }
}

/// The executables of the targets of a replacement.
pub open spec fn binaries_for(
    targets: Seq<ReconcileTargetView>,
    binaries: Seq<(Seq<char>, Seq<char>)>,
) -> Seq<Seq<char>> {
    targets.map_values(
        |t: ReconcileTargetView| lists::value_at(binaries, launch::binary_of(t.client))->0,
    )
}

/// The executables that a replacement needs, or why it is refused.
pub open spec fn replacement_check(
    session: SessionView,
    settings: ConfigView,
    entries: Seq<Seq<char>>,
    binaries: Seq<(Seq<char>, Seq<char>)>,
) -> Result<Seq<Seq<char>>, RestoreErrorView> {
    let clients = session.clients;
    let targets = reconcile_targets(session, settings, entries);
    if wanted_lacking_profile_from(clients, settings, 0) is Some {
        Err(
            RestoreErrorView::UnsafeReplacementTarget {
                reason: profile_reason(
                    clients[wanted_lacking_profile_from(clients, settings, 0)->0].title,
                ),
            },
        )
    } else if clients.len() > 0 && targets.len() == 0 {
        Err(RestoreErrorView::NoRestorableTargets)
    } else if targets.len() > MAX_RECONCILIATION_WINDOWS {
        Err(
            RestoreErrorView::TooManyWindows {
                targets: targets.len(),
                current: 0,
                limit: MAX_RECONCILIATION_WINDOWS as nat,
            },
        )
    } else {
        match launch_problem(targets, settings, binaries, 0) {
            Some(LaunchProblem::Untrusted { label, command }) => Err(
                RestoreErrorView::UntrustedLaunch { target: label, command },
            ),
            Some(LaunchProblem::Missing { label, command }) => Err(
                RestoreErrorView::MissingLaunchBinary { target: label, command },
            ),
            None => Ok(binaries_for(targets, binaries)),
        }
    }
}

fn find_lacking_profile(clients: &Vec<SessionClient>) -> (r: Option<usize>)
    ensures
        match r {
            Some(i) => i < clients.len() && lacking_profile_from(clients.deep_view(), 0) == Some(
                i as int,
            ),
            None => lacking_profile_from(clients.deep_view(), 0) is None,
        },
{
    let ghost all = clients.deep_view();
    let mut i: usize = 0;
    while i < clients.len()
        invariant
            i <= clients.len(),
            all == clients.deep_view(),
            lacking_profile_from(all, 0) == lacking_profile_from(all, i as int),
        decreases clients.len() - i,
    {
        assert(all[i as int] == clients[i as int]@);
        if identity::brave_client_has_no_safe_profile_identity(&clients[i]) {
            return Some(i);
        }
        i += 1;
    }
    None
}

fn find_wanted_lacking_profile(clients: &Vec<SessionClient>, config: &Config) -> (r: Option<usize>)
    ensures
        match r {
            Some(i) => i < clients.len() && wanted_lacking_profile_from(
                clients.deep_view(),
                config@,
                0,
            ) == Some(i as int),
            None => wanted_lacking_profile_from(clients.deep_view(), config@, 0) is None,
        },
{
    let ghost all = clients.deep_view();
    let mut i: usize = 0;
    while i < clients.len()
        invariant
            i <= clients.len(),
            all == clients.deep_view(),
            wanted_lacking_profile_from(all, config@, 0) == wanted_lacking_profile_from(
                all,
                config@,
                i as int,
            ),
        decreases clients.len() - i,
    {
        assert(all[i as int] == clients[i as int]@);
        if windows::client_is_wanted(&clients[i], config)
            && identity::brave_client_has_no_safe_profile_identity(&clients[i]) {
            return Some(i);
        }
        i += 1;
    }
    None
}

pub(crate) fn find_lacking_address(clients: &Vec<SessionClient>) -> (r: Option<usize>)
    ensures
        match r {
            Some(i) => i < clients.len() && lacking_address_from(clients.deep_view(), 0) == Some(
                i as int,
            ),
            None => lacking_address_from(clients.deep_view(), 0) is None,
        },
{
    let ghost all = clients.deep_view();
    let mut i: usize = 0;
    while i < clients.len()
        invariant
            i <= clients.len(),
            all == clients.deep_view(),
            lacking_address_from(all, 0) == lacking_address_from(all, i as int),
        decreases clients.len() - i,
    {
        assert(all[i as int] == clients[i as int]@);
        if !identity::is_present(&clients[i].address) {
            return Some(i);
        }
        i += 1;
    }
    None
}

fn find_lacking_stable_id(clients: &Vec<SessionClient>) -> (r: Option<usize>)
    ensures
        match r {
            Some(i) => i < clients.len() && lacking_stable_id_from(clients.deep_view(), 0) == Some(
                i as int,
            ),
            None => lacking_stable_id_from(clients.deep_view(), 0) is None,
        },
{
    let ghost all = clients.deep_view();
    let mut i: usize = 0;
    while i < clients.len()
        invariant
            i <= clients.len(),
            all == clients.deep_view(),
            lacking_stable_id_from(all, 0) == lacking_stable_id_from(all, i as int),
        decreases clients.len() - i,
    {
        assert(all[i as int] == clients[i as int]@);
        if !identity::is_present(&clients[i].stable_id) {
            return Some(i);
        }
        i += 1;
    }
    None
}

fn count_wanted(clients: &Vec<SessionClient>, config: &Config) -> (r: usize)
    ensures
        r == wanted_count(clients.deep_view(), config@),
{
    let ghost all = clients.deep_view();
    let mut count: usize = 0;
    let mut i: usize = 0;
    assert(all.take(0) =~= Seq::<SessionClientView>::empty());
    while i < clients.len()
        invariant
            i <= clients.len(),
            all == clients.deep_view(),
            count <= i,
            count == wanted_count(all.take(i as int), config@),
        decreases clients.len() - i,
    {
        assert(all[i as int] == clients[i as int]@);
        assert(all.take(i + 1).drop_last() =~= all.take(i as int));
        assert(all.take(i + 1).last() == all[i as int]);
        if windows::client_is_wanted(&clients[i], config) {
            count += 1;
        }
        i += 1;
    }
    assert(all.take(i as int) =~= all);
    count
}

fn profile_complaint(client: &SessionClient) -> (r: String)
    ensures
        r@ == profile_reason(client@.title),
{
    "Brave window '".to_owned().concat(client.title.as_str()).concat(
        "' has no unique profile identity",
    )
}

/// A check that passes, or gives a reason.
pub open spec fn refuses_snapshot(
    r: Result<(), RestoreError>,
    problem: Option<Seq<char>>,
) -> bool {
    match problem {
        Some(reason) => r is Err && r->Err_0@ == RestoreErrorView::UnsafeRecoverySnapshot {
            reason,
        },
        None => r is Ok,
    }
}

/// Ensure a safety snapshot can be used before a destructive replacement
/// starts.  A Brave process can own several windows while exposing several
/// profile flags, but Hyprland does not tell us which flag belongs to which
/// window.  Starting replacement in that state would make recovery guess and
/// could silently lose windows, so fail before closing anything.
pub fn validate_safety_snapshot(session: &Session) -> (r: Result<(), RestoreError>)
    ensures
        refuses_snapshot(
            r,
            match lacking_profile_from(session@.clients, 0) {
                Some(i) => Some(profile_reason(session@.clients[i].title)),
                None => None,
            },
        ),
{
    match find_lacking_profile(&session.clients) {
        Some(i) => {
            assert(session@.clients[i as int] == session.clients[i as int]@);
            Err(
                RestoreError::UnsafeRecoverySnapshot {
                    reason: profile_complaint(&session.clients[i]),
                },
            )
        },
        None => Ok(()),
    }
}

enum Launchable {
    Untrusted(usize, String),
    Missing(usize, String),
    All(Vec<String>),
}

/// Looks at the launches of some targets in turn.
fn check_launches(
    targets: &Vec<ReconcileTarget>,
    config: &Config,
    binaries: &Table<String>,
) -> (r: Launchable)
    ensures
        match r {
            Launchable::Untrusted(i, command) => i < targets.len() && launch_problem(
                targets.deep_view(),
                config@,
                binaries@,
                0,
            ) == Some(
                LaunchProblem::Untrusted {
                    label: targets.deep_view()[i as int].label,
                    command: command@,
                },
            ),
            Launchable::Missing(i, command) => i < targets.len() && launch_problem(
                targets.deep_view(),
                config@,
                binaries@,
                0,
            ) == Some(
                LaunchProblem::Missing {
                    label: targets.deep_view()[i as int].label,
                    command: command@,
                },
            ),
            Launchable::All(paths) => launch_problem(targets.deep_view(), config@, binaries@, 0)
                is None && paths.deep_view() == binaries_for(targets.deep_view(), binaries@),
        },
{
    let ghost all = targets.deep_view();
    let mut paths: Vec<String> = Vec::new();
    let mut i: usize = 0;
    assert(paths.deep_view() =~= binaries_for(all, binaries@).take(0));
    while i < targets.len()
        invariant
            i <= targets.len(),
            all == targets.deep_view(),
            launch_problem(all, config@, binaries@, 0) == launch_problem(
                all,
                config@,
                binaries@,
                i as int,
            ),
            paths.deep_view() == binaries_for(all, binaries@).take(i as int),
        decreases targets.len() - i,
    {
        let target = &targets[i];
        assert(all[i as int] == target@);
        let command = launch::effective_binary(&target.client);
        if !launch::launch_command_is_trusted(&target.client, config) {
            return Launchable::Untrusted(i, command);
        }
        match binaries.get(command.as_str()) {
            Some(path) => {
                let ghost before = paths.deep_view();
                let copy = path.clone();
                paths.push(copy);
                assert(binaries_for(all, binaries@)[i as int] == path@);
                assert(paths.deep_view() =~= before.push(path@));
                assert(binaries_for(all, binaries@).take(i + 1) =~= before.push(path@));
            },
            None => {
                return Launchable::Missing(i, command);
            },
        }
        i += 1;
    }
    assert(binaries_for(all, binaries@).take(i as int) =~= binaries_for(all, binaries@));
    Launchable::All(paths)
}

fn snapshot_error(reason: String) -> (r: Result<(), RestoreError>)
    ensures
        refuses_snapshot(r, Some(reason@)),
{
    Err(RestoreError::UnsafeRecoverySnapshot { reason })
}

/// Validate the complete safety snapshot before replacement closes anything.
/// The Brave-specific check above protects profile identity; this variant also
/// verifies every executable that the recovery pass would need to relaunch.
/// A safety snapshot is captured with recovery filters, so silently accepting a
/// missing or untrusted command here would leave the user with no recoverable
/// copy after a failed replacement.  `binaries` gives the executable that each
/// launch command resolves to.
pub fn validate_safety_snapshot_with_config(
    session: &Session,
    config: &Config,
    entries: &[String],
    binaries: &Table<String>,
) -> (r: Result<(), RestoreError>)
    ensures
        refuses_snapshot(
            r,
            safety_problem(session@, config@, entries.deep_view(), binaries@),
        ),
{
    let clients = &session.clients;
    if let Some(i) = find_lacking_profile(clients) {
        assert(session@.clients[i as int] == clients[i as int]@);
        return snapshot_error(profile_complaint(&clients[i]));
    }
    if let Some(i) = find_lacking_address(clients) {
        assert(session@.clients[i as int] == clients[i as int]@);
        return snapshot_error(
            "captured window '".to_owned().concat(clients[i].title.as_str()).concat(
                "' has no Hyprland address for safe replacement",
            ),
        );
    }
    if let Some(i) = find_lacking_stable_id(clients) {
        assert(session@.clients[i as int] == clients[i as int]@);
        return snapshot_error(
            "captured window '".to_owned().concat(clients[i].title.as_str()).concat(
                "' has no Hyprland stable window ID for safe replacement",
            ),
        );
    }
    let expected = count_wanted(clients, config);
    let targets = build_reconcile_targets(session, config, entries);
    assert(targets.len() == targets.deep_view().len());
    if targets.len() != expected {
        return snapshot_error(
            "only ".to_owned().concat(text::count_text(targets.len()).as_str()).concat(
                " of ",
            ).concat(text::count_text(expected).as_str()).concat(
                " captured windows have a recoverable launch target",
            ),
        );
    }
    match check_launches(&targets, config, binaries) {
        Launchable::Untrusted(i, command) => snapshot_error(
            "launch command '".to_owned().concat(command.as_str()).concat("' for ").concat(
                targets[i].label.as_str(),
            ).concat(" is not authorized by app identity or config"),
        ),
        Launchable::Missing(i, command) => snapshot_error(
            "binary '".to_owned().concat(command.as_str()).concat("' for ").concat(
                targets[i].label.as_str(),
            ).concat(" is not available"),
        ),
        Launchable::All(_) => Ok(()),
    }
}

/// Validate every executable that a replacement will need before any current
/// window is closed.  Unlike an ordinary reconcile pass, replacement will
/// make every target missing, so every launch command must be trusted and
/// resolvable up front.  The executables come in the order of the targets.
pub fn validate_replacement_targets(
    session: &Session,
    config: &Config,
    entries: &[String],
    binaries: &Table<String>,
) -> (r: Result<Vec<String>, RestoreError>)
    ensures
        match r {
            Ok(paths) => replacement_check(session@, config@, entries.deep_view(), binaries@)
                == Ok::<Seq<Seq<char>>, RestoreErrorView>(paths.deep_view()),
            Err(error) => replacement_check(session@, config@, entries.deep_view(), binaries@)
                == Err::<Seq<Seq<char>>, RestoreErrorView>(error@),
        },
{
    let clients = &session.clients;
    if let Some(i) = find_wanted_lacking_profile(clients, config) {
        assert(session@.clients[i as int] == clients[i as int]@);
        return Err(
            RestoreError::UnsafeReplacementTarget { reason: profile_complaint(&clients[i]) },
        );
    }
    let targets = build_reconcile_targets(session, config, entries);
    assert(targets.len() == targets.deep_view().len());
    if clients.len() > 0 && targets.len() == 0 {
        return Err(RestoreError::NoRestorableTargets);
    }
    if targets.len() > MAX_RECONCILIATION_WINDOWS {
        return Err(
            RestoreError::TooManyWindows {
                targets: targets.len(),
                current: 0,
                limit: MAX_RECONCILIATION_WINDOWS,
            },
        );
    }
    match check_launches(&targets, config, binaries) {
        Launchable::Untrusted(i, command) => Err(
            RestoreError::UntrustedLaunch { target: targets[i].label.clone(), command },
        ),
        Launchable::Missing(i, command) => Err(
            RestoreError::MissingLaunchBinary { target: targets[i].label.clone(), command },
        ),
        Launchable::All(paths) => Ok(paths),
    }
}

} // verus!
