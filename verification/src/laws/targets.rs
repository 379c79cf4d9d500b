//! What a session asks for: its windows, in the order in which they stood.

use crate::config::{AppConfigView, ConfigView};
use crate::laws::effects;
use crate::laws::processes;
use crate::laws::sessions;
use crate::laws::texts;
use crate::lists;
use crate::lists::Ordered;
use crate::process;
use crate::restore::launch;
use crate::restore::targets;
use crate::restore::targets::{ReconcileTarget, ReconcileTargetView};
use crate::restore::windows;
use crate::session::{BraveProfileView, LaunchInfoView, SessionClientView, SessionView};
use crate::text;
use crate::webapps;
use vstd::prelude::*;

verus! {

// ── Order ──────────────────────────────────────────────────────────────────

spec fn before(a: ReconcileTargetView, b: ReconcileTargetView) -> bool {
    ReconcileTarget::precedes(a, b)
}

proof fn lemma_order_is_strict(a: ReconcileTargetView, b: ReconcileTargetView)
    requires
        before(a, b),
    ensures
        !before(b, a),
{
    text::lemma_comes_before_total(a.label, b.label);
}

proof fn lemma_order_is_weak(
    a: ReconcileTargetView,
    b: ReconcileTargetView,
    c: ReconcileTargetView,
)
    requires
        !before(a, b),
        !before(b, c),
    ensures
        !before(a, c),
{
    text::lemma_comes_before_total(a.label, b.label);
    text::lemma_comes_before_total(b.label, c.label);
    text::lemma_comes_before_total(a.label, c.label);
    if text::comes_before(b.label, a.label) && text::comes_before(c.label, b.label) {
        text::lemma_comes_before_transitive(c.label, b.label, a.label);
    }
}

proof fn lemma_targets_are_sorted(all: Seq<ReconcileTargetView>)
    ensures
        ({
            let sorted = lists::sorted(
                all,
                |a: ReconcileTargetView, b: ReconcileTargetView| ReconcileTarget::precedes(a, b),
            );
            &&& sorted.len() == all.len()
            &&& sorted.to_multiset() == all.to_multiset()
            &&& forall|i: int, j: int|
                0 <= i < j < all.len() ==> !before(#[trigger] sorted[j], #[trigger] sorted[i])
        }),
{
    let f = |a: ReconcileTargetView, b: ReconcileTargetView| ReconcileTarget::precedes(a, b);
    assert forall|a: ReconcileTargetView, b: ReconcileTargetView| #[trigger] f(a, b) implies !f(
        b,
        a,
    ) by {
        lemma_order_is_strict(a, b);
    }
    assert forall|a: ReconcileTargetView, b: ReconcileTargetView, c: ReconcileTargetView|
        !(#[trigger] f(a, b)) && !(#[trigger] f(b, c)) implies !f(a, c) by {
        lemma_order_is_weak(a, b, c);
    }
    lists::law_sorting_orders(all, f);
    let sorted = lists::sorted(all, f);
    assert forall|i: int, j: int| 0 <= i < j < all.len() implies !before(
        #[trigger] sorted[j],
        #[trigger] sorted[i],
    ) by {
        assert(!f(sorted[j], sorted[i]));
    }
}

spec fn unsorted(
    session: SessionView,
    settings: ConfigView,
    entries: Seq<Seq<char>>,
) -> Seq<ReconcileTargetView> {
    let profiles = targets::profile_targets(session, settings);
    let plain = targets::plain_targets(session.clients, settings, entries, profiles is Some);
    match profiles {
        Some(list) => plain + targets::profile_plan(
            list,
            targets::brave_windows(session.clients, settings),
            settings,
        ).0,
        None => plain,
    }
}

/// Windows are asked for by workspace, on one workspace from top to bottom, on
/// one height from left to right, and at one place by their names.
pub proof fn law_targets_stand_in_order(
    session: SessionView,
    settings: ConfigView,
    entries: Seq<Seq<char>>,
    i: int,
    j: int,
)
    requires
        0 <= i < j < targets::reconcile_targets(session, settings, entries).len(),
    ensures
        ({
            let all = targets::reconcile_targets(session, settings, entries);
            let (a, b) = (all[i].client, all[j].client);
            &&& a.workspace <= b.workspace
            &&& a.workspace == b.workspace ==> a.at.1 <= b.at.1
            &&& a.workspace == b.workspace && a.at.1 == b.at.1 ==> a.at.0 <= b.at.0
            &&& a.workspace == b.workspace && a.at == b.at ==> !text::comes_before(
                all[j].label,
                all[i].label,
            )
        }),
{
    lemma_targets_are_sorted(unsorted(session, settings, entries));
    let all = targets::reconcile_targets(session, settings, entries);
    assert(!before(all[j], all[i]));
}

proof fn lemma_sorted_holds(
    session: SessionView,
    settings: ConfigView,
    entries: Seq<Seq<char>>,
    target: ReconcileTargetView,
)
    ensures
        targets::reconcile_targets(session, settings, entries).contains(target) <==> unsorted(
            session,
            settings,
            entries,
        ).contains(target),
        targets::reconcile_targets(session, settings, entries).len() == unsorted(
            session,
            settings,
            entries,
        ).len(),
{
    broadcast use vstd::seq_lib::group_to_multiset_ensures;

    let all = unsorted(session, settings, entries);
    lemma_targets_are_sorted(all);
    let sorted = targets::reconcile_targets(session, settings, entries);
    assert(sorted.to_multiset().contains(target) <==> sorted.contains(target));
    assert(all.to_multiset().contains(target) <==> all.contains(target));
}

// ── Windows ────────────────────────────────────────────────────────────────

/// A saved window that its own launch opens: no class of it is ignored, and it
/// is one of neither Brave nor a web application.
pub open spec fn is_plain_window(client: SessionClientView, settings: ConfigView) -> bool {
    &&& sessions::is_unlisted(settings.ignore_classes, client.class)
    &&& sessions::is_unlisted(settings.ignore_classes, client.initial_class)
    &&& !text::same_ignoring_case(client.class, "brave-browser"@)
    &&& !text::same_ignoring_case(client.initial_class, "brave-browser"@)
    &&& !text::starts_with_ignoring_case(client.class, "chrome-"@)
    &&& !text::starts_with_ignoring_case(client.initial_class, "chrome-"@)
}

proof fn lemma_plain_window(
    clients: Seq<SessionClientView>,
    settings: ConfigView,
    entries: Seq<Seq<char>>,
    by_profile: bool,
    i: int,
)
    requires
        0 <= i < clients.len(),
        is_plain_window(clients[i], settings),
    ensures
        targets::plain_targets(clients, settings, entries, by_profile).contains(
            targets::named(clients[i]),
        ),
    decreases clients.len(),
{
    let front = clients.drop_last();
    let earlier = targets::plain_targets(front, settings, entries, by_profile);
    let all = targets::plain_targets(clients, settings, entries, by_profile);
    if i < clients.len() - 1 {
        assert(front[i] == clients[i]);
        lemma_plain_window(front, settings, entries, by_profile, i);
        let k = choose|k: int| 0 <= k < earlier.len() && earlier[k] == targets::named(clients[i]);
        assert(all[k] == earlier[k]);
    } else {
        assert(targets::hydrated(clients[i], settings, entries) == clients[i]);
        assert(all[earlier.len() as int] == targets::named(clients[i]));
    }
}

/// Every saved window that is not ignored is asked for, just as it was saved.
pub proof fn law_saved_windows_are_asked_for(
    session: SessionView,
    settings: ConfigView,
    entries: Seq<Seq<char>>,
    i: int,
)
    requires
        0 <= i < session.clients.len(),
        is_plain_window(session.clients[i], settings),
    ensures
        exists|k: int|
            0 <= k < targets::reconcile_targets(session, settings, entries).len() && (
            #[trigger] targets::reconcile_targets(session, settings, entries)[k]).client
                == session.clients[i],
{
    let profiles = targets::profile_targets(session, settings);
    let plain = targets::plain_targets(session.clients, settings, entries, profiles is Some);
    lemma_plain_window(session.clients, settings, entries, profiles is Some, i);
    let target = targets::named(session.clients[i]);
    let k = choose|k: int| 0 <= k < plain.len() && plain[k] == target;
    let all = unsorted(session, settings, entries);
    assert(all[k] == plain[k]);
    lemma_sorted_holds(session, settings, entries, target);
    let sorted = targets::reconcile_targets(session, settings, entries);
    let m = choose|m: int| 0 <= m < sorted.len() && sorted[m] == target;
    assert(sorted[m].client == session.clients[i]);
}

proof fn lemma_stems(
    clients: Seq<SessionClientView>,
    settings: ConfigView,
    entries: Seq<Seq<char>>,
    by_profile: bool,
    k: int,
)
    requires
        0 <= k < targets::plain_targets(clients, settings, entries, by_profile).len(),
    ensures
        ({
            let target = targets::plain_targets(clients, settings, entries, by_profile)[k].client;
            exists|i: int|
                {
                    &&& 0 <= i < clients.len()
                    &&& sessions::is_unlisted(settings.ignore_classes, clients[i].class)
                    &&& sessions::is_unlisted(settings.ignore_classes, clients[i].initial_class)
                    &&& target == (SessionClientView {
                        launch: target.launch,
                        ..#[trigger] clients[i]
                    })
                }
        }),
    decreases clients.len(),
{
    let front = clients.drop_last();
    let earlier = targets::plain_targets(front, settings, entries, by_profile);
    let all = targets::plain_targets(clients, settings, entries, by_profile);
    let target = all[k].client;
    if k < earlier.len() {
        assert(all[k] == earlier[k]);
        lemma_stems(front, settings, entries, by_profile, k);
        let i = choose|i: int|
            {
                &&& 0 <= i < front.len()
                &&& sessions::is_unlisted(settings.ignore_classes, front[i].class)
                &&& sessions::is_unlisted(settings.ignore_classes, front[i].initial_class)
                &&& target == (SessionClientView { launch: target.launch, ..#[trigger] front[i] })
            };
        assert(clients[i] == front[i]);
    } else {
        let last = clients.len() - 1;
        assert(clients[last] == clients.last());
        assert(target == (SessionClientView { launch: target.launch, ..clients[last] }));
    }
}

/// Without profiles to open, nothing but the saved windows is asked for, each
/// as it was saved but for the command that opens a web application.
pub proof fn law_nothing_else_is_asked_for(
    session: SessionView,
    settings: ConfigView,
    entries: Seq<Seq<char>>,
    k: int,
)
    requires
        session.brave_profiles.len() == 0,
        settings.apps.len() == 0,
        0 <= k < targets::reconcile_targets(session, settings, entries).len(),
    ensures
        ({
            let target = targets::reconcile_targets(session, settings, entries)[k].client;
            exists|i: int|
                {
                    &&& 0 <= i < session.clients.len()
                    &&& sessions::is_unlisted(settings.ignore_classes, session.clients[i].class)
                    &&& sessions::is_unlisted(
                        settings.ignore_classes,
                        session.clients[i].initial_class,
                    )
                    &&& target == (SessionClientView {
                        launch: target.launch,
                        ..#[trigger] session.clients[i]
                    })
                }
        }),
{
    assert(lists::key_from(settings.apps, "brave-browser"@, 0) is None);
    assert(lists::key_from(settings.apps, ""@, 0) is None);
    assert(targets::profile_targets(session, settings) is None);
    let sorted = targets::reconcile_targets(session, settings, entries);
    let all = unsorted(session, settings, entries);
    lemma_sorted_holds(session, settings, entries, sorted[k]);
    assert(sorted.contains(sorted[k]));
    let m = choose|m: int| 0 <= m < all.len() && all[m] == sorted[k];
    lemma_stems(session.clients, settings, entries, false, m);
}

/// Only a web application that was saved without a launcher of its own gets
/// one from the desktop entries, and nothing but its launch changes.
pub proof fn law_only_old_web_applications_get_a_launcher(
    client: SessionClientView,
    settings: ConfigView,
    entries: Seq<Seq<char>>,
)
    ensures
        ({
            let after = targets::hydrated(client, settings, entries);
            &&& after == SessionClientView { launch: after.launch, ..client }
            &&& !text::starts_with_ignoring_case(client.class, "chrome-"@)
                && !text::starts_with_ignoring_case(client.initial_class, "chrome-"@) ==> after
                == client
            &&& client.launch.command.len() > 0 && !text::same_ignoring_case(
                client.class,
                client.launch.command,
            ) && !text::same_ignoring_case(client.initial_class, client.launch.command) ==> after
                == client
        }),
{
}

// ── Profiles ───────────────────────────────────────────────────────────────

/// A profile is opened by a browser that is told its directory: the command
/// line of that browser names this very profile.
pub proof fn law_profile_is_opened_by_its_name(
    base: SessionClientView,
    profile: BraveProfileView,
    settings: ConfigView,
    words: Seq<Seq<char>>,
)
    requires
        words.len() > 0,
        forall|i: int|
            0 <= i < words.len() ==> texts::is_word(#[trigger] words[i]) && words[i][0] != '-',
        profile.directory == text::joined(words, " "@),
    ensures
        ({
            let target = targets::profile_target(base, profile, settings).client;
            let args = target.launch.args;
            &&& args.len() == 1
            &&& process::profile_in("brave "@ + args[0]) == Some(profile.directory)
            &&& target.profile_directory == Some(profile.directory)
            &&& !target.profile_identity_ambiguous
        }),
{
    reveal_strlit("brave ");
    reveal_strlit("--profile-directory=");
    let flag = "--profile-directory="@;
    let none = Seq::<char>::empty();
    let line = "brave "@ + (flag + profile.directory);
    assert(line =~= "brave "@ + flag + (text::joined(words, " "@) + none));
    let before = "brave "@ + flag.drop_last();
    assert forall|i: int| 0 <= i <= before.len() - flag.len() implies #[trigger] before.subrange(
        i,
        i + flag.len(),
    ) != flag by {
        let part = before.subrange(i, i + flag.len());
        assert(part[0] == before[i]);
        assert(part[1] == before[i + 1]);
        assert(i < 6);
        assert(before[i] == "brave "@[i]);
        assert(flag[0] == '-');
    }
    texts::law_leading_white_space_is_no_word(' ', none);
    processes::law_profile_in_a_command_line("brave "@, words, none);
}

/// A profile is opened on the workspace that the settings give it, where they
/// give it one, else on the browser's own, else on the first.  Everything else
/// about its window is kept.
pub proof fn law_profile_is_opened_on_its_workspace(
    base: SessionClientView,
    profile: BraveProfileView,
    settings: ConfigView,
    app: AppConfigView,
    mapping: Seq<(Seq<char>, i32)>,
    i: int,
)
    requires
        settings.apps.len() > 0,
        settings.apps[0] == ("brave-browser"@, app),
        app.profile_workspaces == Some(mapping),
    ensures
        ({
            let target = targets::profile_target(base, profile, settings).client;
            let first = 0 <= i < mapping.len() && mapping[i].0 == profile.directory && forall|
                k: int,
            |
                0 <= k < i ==> (#[trigger] mapping[k]).0 != profile.directory;
            let unmapped = forall|k: int|
                0 <= k < mapping.len() ==> (#[trigger] mapping[k]).0 != profile.directory;
            &&& first ==> target.workspace == mapping[i].1
            &&& unmapped && app.default_workspace is Some ==> target.workspace
                == app.default_workspace->0
            &&& unmapped && app.default_workspace is None ==> target.workspace == 1
            &&& effects::number(target.workspace_name) == target.workspace
            &&& app.binary is Some ==> target.launch.command == app.binary->0
            &&& app.binary is None ==> target.launch.command == "brave"@
            &&& target.at == base.at && target.size == base.size
            &&& target.monitor == base.monitor
            &&& target.floating == base.floating
            &&& target.fullscreen == base.fullscreen
            &&& target.pinned == base.pinned
        }),
{
    assert(lists::key_from(settings.apps, "brave-browser"@, 0) == Some(0int));
    let target = targets::profile_target(base, profile, settings).client;
    effects::law_decimal_text_reads_back(target.workspace);
    if 0 <= i < mapping.len() {
        lemma_first_mapping(mapping, profile.directory, 0, i);
    }
    lemma_unmapped(mapping, profile.directory, 0);
}

proof fn lemma_first_mapping(mapping: Seq<(Seq<char>, i32)>, key: Seq<char>, from: int, i: int)
    requires
        0 <= from <= i < mapping.len(),
    ensures
        mapping[i].0 == key && (forall|k: int|
            from <= k < i ==> (#[trigger] mapping[k]).0 != key) ==> lists::key_from(
            mapping,
            key,
            from,
        ) == Some(i),
    decreases i - from,
{
    if from < i {
        lemma_first_mapping(mapping, key, from + 1, i);
    }
}

proof fn lemma_unmapped(mapping: Seq<(Seq<char>, i32)>, key: Seq<char>, from: int)
    requires
        0 <= from <= mapping.len(),
    ensures
        (forall|k: int| from <= k < mapping.len() ==> (#[trigger] mapping[k]).0 != key)
            ==> lists::key_from(mapping, key, from) is None,
    decreases mapping.len() - from,
{
    if from < mapping.len() {
        lemma_unmapped(mapping, key, from + 1);
    }
}

/// The browser that opens a profile is trusted to do so.
pub proof fn law_profiles_are_opened_by_trusted_browsers(
    base: SessionClientView,
    profile: BraveProfileView,
    settings: ConfigView,
)
    requires
        base.class == "brave-browser"@,
        base.initial_class == "brave-browser"@,
        settings.apps.len() == 0 || settings.apps[0].0 == "brave-browser"@,
    ensures
        launch::is_trusted(targets::profile_target(base, profile, settings).client, settings),
{
    reveal_strlit("brave-browser");
    reveal_strlit("ghostty");
    reveal_strlit("com.mitchellh.ghostty");
    reveal_strlit("");
    assert(text::lowered("brave-browser"@).len() == 13);
    assert(text::lowered("ghostty"@).len() == 7);
    assert(text::lowered("com.mitchellh.ghostty"@).len() == 21);
    if settings.apps.len() == 0 {
        assert(lists::key_from(settings.apps, "brave-browser"@, 0) is None);
        assert(lists::key_from(settings.apps, ""@, 0) is None);
    } else {
        assert(lists::key_from(settings.apps, "brave-browser"@, 0) == Some(0int));
    }
}

/// A profile gets the window that showed it, and where none did, the first
/// that no other profile took.
pub proof fn law_profile_takes_its_own_window(
    clients: Seq<SessionClientView>,
    used: Seq<bool>,
    directory: Seq<char>,
    i: int,
)
    requires
        used.len() == clients.len(),
        0 <= i < clients.len(),
        !used[i],
    ensures
        ({
            let taken = targets::place_taken(clients, used, directory);
            let shows = |k: int|
                !used[k] && clients[k].profile_directory is Some && text::same_ignoring_case(
                    clients[k].profile_directory->0,
                    directory,
                );
            &&& shows(i) && (forall|k: int| 0 <= k < i ==> !#[trigger] shows(k)) ==> taken == Some(i)
            &&& (forall|k: int| 0 <= k < clients.len() ==> !#[trigger] shows(k)) && (forall|k: int|
                0 <= k < i ==> #[trigger] used[k]) ==> taken == Some(i)
            &&& taken is Some
        }),
{
    let shows = |k: int|
        !used[k] && clients[k].profile_directory is Some && text::same_ignoring_case(
            clients[k].profile_directory->0,
            directory,
        );
    lemma_showing(clients, used, directory, 0, i);
    lemma_unused(used, 0, i);
    if forall|k: int| 0 <= k < clients.len() ==> !#[trigger] shows(k) {
        lemma_none_showing(clients, used, directory, 0);
    }
}

proof fn lemma_showing(
    clients: Seq<SessionClientView>,
    used: Seq<bool>,
    directory: Seq<char>,
    from: int,
    i: int,
)
    requires
        0 <= from <= i < clients.len(),
    ensures
        ({
            let shows = |k: int|
                !used[k] && clients[k].profile_directory is Some && text::same_ignoring_case(
                    clients[k].profile_directory->0,
                    directory,
                );
            shows(i) && (forall|k: int| from <= k < i ==> !#[trigger] shows(k))
                ==> targets::showing_from(clients, used, directory, from) == Some(i)
        }),
    decreases i - from,
{
    let shows = |k: int|
        !used[k] && clients[k].profile_directory is Some && text::same_ignoring_case(
            clients[k].profile_directory->0,
            directory,
        );
    if from < i {
        lemma_showing(clients, used, directory, from + 1, i);
        if forall|k: int| from <= k < i ==> !#[trigger] shows(k) {
            assert(!shows(from));
        }
    }
}

proof fn lemma_none_showing(
    clients: Seq<SessionClientView>,
    used: Seq<bool>,
    directory: Seq<char>,
    from: int,
)
    requires
        0 <= from <= clients.len(),
        ({
            let shows = |k: int|
                !used[k] && clients[k].profile_directory is Some && text::same_ignoring_case(
                    clients[k].profile_directory->0,
                    directory,
                );
            forall|k: int| from <= k < clients.len() ==> !#[trigger] shows(k)
        }),
    ensures
        targets::showing_from(clients, used, directory, from) is None,
    decreases clients.len() - from,
{
    let shows = |k: int|
        !used[k] && clients[k].profile_directory is Some && text::same_ignoring_case(
            clients[k].profile_directory->0,
            directory,
        );
    if from < clients.len() {
        assert(!shows(from));
        lemma_none_showing(clients, used, directory, from + 1);
    }
}

proof fn lemma_unused(used: Seq<bool>, from: int, i: int)
    requires
        0 <= from <= i < used.len(),
        !used[i],
    ensures
        targets::unused_from(used, from) is Some,
        (forall|k: int| from <= k < i ==> #[trigger] used[k]) ==> targets::unused_from(used, from)
            == Some(i),
    decreases i - from,
{
    if from < i {
        lemma_unused(used, from + 1, i);
    }
}

// ── Replacing a desktop ────────────────────────────────────────────────────

/// The launch of a target can be made: it is trusted, and its executable was
/// found.
pub open spec fn can_be_launched(
    target: ReconcileTargetView,
    settings: ConfigView,
    binaries: Seq<(Seq<char>, Seq<char>)>,
) -> bool {
    &&& launch::is_trusted(target.client, settings)
    &&& exists|k: int|
        0 <= k < binaries.len() && (#[trigger] binaries[k]).0 == launch::binary_of(target.client)
}

proof fn lemma_binary_is_there(binaries: Seq<(Seq<char>, Seq<char>)>, command: Seq<char>, from: int)
    requires
        0 <= from <= binaries.len(),
    ensures
        lists::key_from(binaries, command, from) is Some <==> exists|k: int|
            from <= k < binaries.len() && (#[trigger] binaries[k]).0 == command,
    decreases binaries.len() - from,
{
    if from < binaries.len() && binaries[from].0 != command {
        lemma_binary_is_there(binaries, command, from + 1);
    }
}

proof fn lemma_launches(
    all: Seq<ReconcileTargetView>,
    settings: ConfigView,
    binaries: Seq<(Seq<char>, Seq<char>)>,
    from: int,
)
    requires
        0 <= from <= all.len(),
    ensures
        targets::launch_problem(all, settings, binaries, from) is None <==> forall|k: int|
            from <= k < all.len() ==> can_be_launched(#[trigger] all[k], settings, binaries),
    decreases all.len() - from,
{
    if from < all.len() {
        lemma_binary_is_there(binaries, launch::binary_of(all[from].client), 0);
        lemma_launches(all, settings, binaries, from + 1);
    }
}

/// A Brave window whose profile identifies it, or a window of another
/// application.
pub open spec fn has_sure_profile(client: SessionClientView) -> bool {
    let brave = text::same_ignoring_case(client.class, "brave-browser"@)
        || text::same_ignoring_case(client.initial_class, "brave-browser"@);
    brave ==> {
        &&& !client.profile_identity_ambiguous
        &&& client.profile_directory is Some
        &&& client.profile_directory->0.len() > 0
    }
}

proof fn lemma_sure_profiles(clients: Seq<SessionClientView>, settings: ConfigView, from: int)
    requires
        0 <= from <= clients.len(),
    ensures
        targets::lacking_profile_from(clients, from) is None <==> forall|k: int|
            from <= k < clients.len() ==> has_sure_profile(#[trigger] clients[k]),
        targets::wanted_lacking_profile_from(clients, settings, from) is None <==> forall|k: int|
            from <= k < clients.len() ==> has_sure_profile(#[trigger] clients[k])
                || !sessions::is_unlisted(settings.ignore_classes, clients[k].class)
                || !sessions::is_unlisted(settings.ignore_classes, clients[k].initial_class),
    decreases clients.len() - from,
{
    if from < clients.len() {
        lemma_sure_profiles(clients, settings, from + 1);
        assert(windows::is_wanted(settings, clients[from]) == (sessions::is_unlisted(
            settings.ignore_classes,
            clients[from].class,
        ) && sessions::is_unlisted(settings.ignore_classes, clients[from].initial_class)));
    }
}

/// A desktop may be replaced by a session exactly if every browser window that
/// is wanted has a sure profile, the session asks for at least one window
/// unless it is empty, for five hundred and twelve at most, and each of them
/// can be launched.
pub proof fn law_replacement_needs_every_launch(
    session: SessionView,
    settings: ConfigView,
    entries: Seq<Seq<char>>,
    binaries: Seq<(Seq<char>, Seq<char>)>,
)
    ensures
        ({
            let all = targets::reconcile_targets(session, settings, entries);
            targets::replacement_check(session, settings, entries, binaries) is Ok <==> {
                &&& forall|k: int|
                    0 <= k < session.clients.len() ==> has_sure_profile(
                        #[trigger] session.clients[k],
                    ) || !sessions::is_unlisted(
                        settings.ignore_classes,
                        session.clients[k].class,
                    ) || !sessions::is_unlisted(
                        settings.ignore_classes,
                        session.clients[k].initial_class,
                    )
                &&& session.clients.len() == 0 || all.len() > 0
                &&& all.len() <= 512
                &&& forall|k: int|
                    0 <= k < all.len() ==> can_be_launched(#[trigger] all[k], settings, binaries)
            }
        }),
{
    lemma_sure_profiles(session.clients, settings, 0);
    lemma_launches(
        targets::reconcile_targets(session, settings, entries),
        settings,
        binaries,
        0,
    );
}

proof fn lemma_addresses(clients: Seq<SessionClientView>, from: int)
    requires
        0 <= from <= clients.len(),
    ensures
        targets::lacking_address_from(clients, from) is None <==> forall|k: int|
            from <= k < clients.len() ==> (#[trigger] clients[k]).address is Some
                && clients[k].address->0.len() > 0,
        targets::lacking_stable_id_from(clients, from) is None <==> forall|k: int|
            from <= k < clients.len() ==> (#[trigger] clients[k]).stable_id is Some
                && clients[k].stable_id->0.len() > 0,
    decreases clients.len() - from,
{
    if from < clients.len() {
        lemma_addresses(clients, from + 1);
    }
}

/// A safety snapshot is good exactly if each of its windows has a sure
/// profile, an address and a stable identifier, each window that is wanted is
/// asked for, and all of those can be launched.
pub proof fn law_safety_snapshot_can_be_restored(
    session: SessionView,
    settings: ConfigView,
    entries: Seq<Seq<char>>,
    binaries: Seq<(Seq<char>, Seq<char>)>,
)
    ensures
        ({
            let all = targets::reconcile_targets(session, settings, entries);
            let clients = session.clients;
            targets::safety_problem(session, settings, entries, binaries) is None <==> {
                &&& forall|k: int| 0 <= k < clients.len() ==> has_sure_profile(#[trigger] clients[k])
                &&& forall|k: int|
                    0 <= k < clients.len() ==> (#[trigger] clients[k]).address is Some
                        && clients[k].address->0.len() > 0
                &&& forall|k: int|
                    0 <= k < clients.len() ==> (#[trigger] clients[k]).stable_id is Some
                        && clients[k].stable_id->0.len() > 0
                &&& all.len() == targets::wanted_count(clients, settings)
                &&& forall|k: int|
                    0 <= k < all.len() ==> can_be_launched(#[trigger] all[k], settings, binaries)
            }
        }),
{
    lemma_sure_profiles(session.clients, settings, 0);
    lemma_addresses(session.clients, 0);
    lemma_launches(
        targets::reconcile_targets(session, settings, entries),
        settings,
        binaries,
        0,
    );
}

/// The wanted windows are counted: those of which no class is ignored.
pub proof fn law_wanted_windows_are_counted(
    clients: Seq<SessionClientView>,
    settings: ConfigView,
)
    ensures
        targets::wanted_count(clients, settings) == clients.filter(
            |c: SessionClientView|
                sessions::is_unlisted(settings.ignore_classes, c.class) && sessions::is_unlisted(
                    settings.ignore_classes,
                    c.initial_class,
                ),
        ).len(),
    decreases clients.len(),
{
    reveal(Seq::filter);
    if clients.len() > 0 {
        law_wanted_windows_are_counted(clients.drop_last(), settings);
    }
}

// ── Which profiles ─────────────────────────────────────────────────────────

/// A saved Brave window that shows a profile.
pub open spec fn shows_profile(client: SessionClientView, directory: Seq<char>) -> bool {
    &&& text::same_ignoring_case(client.class, "brave-browser"@) || text::same_ignoring_case(
        client.initial_class,
        "brave-browser"@,
    )
    &&& client.profile_directory == Some(directory)
    &&& directory.len() > 0
}

proof fn lemma_saved_profiles(clients: Seq<SessionClientView>, directory: Seq<char>)
    ensures
        targets::saved_profiles(clients).contains(directory) <==> exists|i: int|
            0 <= i < clients.len() && shows_profile(#[trigger] clients[i], directory),
    decreases clients.len(),
{
    let all = targets::saved_profiles(clients);
    if clients.len() > 0 {
        let front = clients.drop_last();
        let last = clients.len() - 1;
        let earlier = targets::saved_profiles(front);
        lemma_saved_profiles(front, directory);
        assert(clients[last] == clients.last());
        if all.contains(directory) {
            let k = choose|k: int| 0 <= k < all.len() && all[k] == directory;
            if k < earlier.len() {
                assert(earlier[k] == directory);
                let i = choose|i: int|
                    0 <= i < front.len() && shows_profile(#[trigger] front[i], directory);
                assert(clients[i] == front[i]);
            } else {
                assert(shows_profile(clients[last], directory));
            }
        }
        if exists|i: int| 0 <= i < clients.len() && shows_profile(#[trigger] clients[i], directory) {
            let i = choose|i: int|
                0 <= i < clients.len() && shows_profile(#[trigger] clients[i], directory);
            if i < last {
                assert(front[i] == clients[i]);
                let k = choose|k: int| 0 <= k < earlier.len() && earlier[k] == directory;
                assert(all[k] == directory);
            } else {
                assert(all[earlier.len() as int] == directory);
            }
        }
    } else {
        assert(all.len() == 0);
    }
}

/// Without a mapping the profiles to open are those that a saved window
/// showed, as far as the session lists them; a session that lists none has its
/// windows opened themselves.
pub proof fn law_shown_profiles_are_opened(
    session: SessionView,
    settings: ConfigView,
    profile: BraveProfileView,
    i: int,
)
    requires
        settings.apps.len() == 0,
    ensures
        session.brave_profiles.len() == 0 ==> targets::profile_targets(session, settings) is None,
        session.brave_profiles.contains(profile) && 0 <= i < session.clients.len()
            && shows_profile(session.clients[i], profile.directory) ==> ({
            let opened = targets::profile_targets(session, settings);
            opened is Some && opened->0.contains(profile)
        }),
        0 <= i < session.clients.len() && session.clients[i].profile_directory is Some
            && shows_profile(session.clients[i], session.clients[i].profile_directory->0)
            && session.brave_profiles.len() > 0 && (forall|k: int|
            0 <= k < session.clients.len() && (#[trigger] session.clients[k]).profile_directory
                is Some ==> !text::same_ignoring_case(
                session.clients[k].profile_directory->0,
                profile.directory,
            )) ==> ({
            let opened = targets::profile_targets(session, settings);
            opened is Some && !opened->0.contains(profile)
        }),
{
    assert(lists::key_from(settings.apps, "brave-browser"@, 0) is None);
    assert(lists::key_from(settings.apps, ""@, 0) is None);
    let shown = targets::saved_profiles(session.clients);
    sessions::law_profiles_are_filtered(session.brave_profiles, seq![], shown, profile);
    if 0 <= i < session.clients.len() && shows_profile(session.clients[i], profile.directory) {
        lemma_saved_profiles(session.clients, profile.directory);
        assert(shown.contains(profile.directory));
        let k = choose|k: int| 0 <= k < shown.len() && shown[k] == profile.directory;
        assert(text::same_ignoring_case(shown[k], profile.directory));
    }
    if 0 <= i < session.clients.len() && session.clients[i].profile_directory is Some
        && shows_profile(session.clients[i], session.clients[i].profile_directory->0) {
        lemma_saved_profiles(session.clients, session.clients[i].profile_directory->0);
        assert(shown.len() > 0);
    }
    if forall|k: int|
        0 <= k < session.clients.len() && (#[trigger] session.clients[k]).profile_directory is Some
            ==> !text::same_ignoring_case(
            session.clients[k].profile_directory->0,
            profile.directory,
        ) {
        assert forall|k: int| 0 <= k < shown.len() implies !text::same_ignoring_case(
            #[trigger] shown[k],
            profile.directory,
        ) by {
            lemma_saved_profiles(session.clients, shown[k]);
            assert(shown.contains(shown[k]));
            let m = choose|m: int|
                0 <= m < session.clients.len() && shows_profile(
                    #[trigger] session.clients[m],
                    shown[k],
                );
            assert(session.clients[m].profile_directory->0 == shown[k]);
        }
    }
}

/// With a mapping a listed profile is opened exactly where the mapping names
/// it.
pub proof fn law_mapped_profiles_are_opened(
    session: SessionView,
    settings: ConfigView,
    app: AppConfigView,
    mapping: Seq<(Seq<char>, i32)>,
    profile: BraveProfileView,
)
    requires
        settings.apps.len() > 0,
        settings.apps[0] == ("brave-browser"@, app),
        app.profile_workspaces == Some(mapping),
        session.brave_profiles.contains(profile),
    ensures
        ({
            let opened = targets::profile_targets(session, settings);
            &&& opened is Some
            &&& opened->0.contains(profile) <==> exists|k: int|
                0 <= k < mapping.len() && (#[trigger] mapping[k]).0 == profile.directory
        }),
{
    assert(lists::key_from(settings.apps, "brave-browser"@, 0) == Some(0int));
    sessions::law_profiles_are_filtered(session.brave_profiles, mapping, seq![], profile);
}

/// A web application that was saved without a launcher gets the one that the
/// desktop entries record.
pub proof fn law_old_web_applications_get_a_launcher(
    client: SessionClientView,
    settings: ConfigView,
    entries: Seq<Seq<char>>,
    found: LaunchInfoView,
)
    requires
        text::starts_with_ignoring_case(client.class, "chrome-"@),
        client.launch.command.len() == 0,
        settings.apps.len() == 0,
        webapps::discovered_launch(client.class, client.initial_class, entries) == Some(found),
    ensures
        targets::hydrated(client, settings, entries) == (SessionClientView {
            launch: found,
            ..client
        }),
{
    assert(lists::key_from(settings.apps, client.class, 0) is None);
    assert(lists::key_from(settings.apps, client.initial_class, 0) is None);
}

/// A profile that no saved window showed, where every window is taken by
/// another profile, is opened like the first of the windows; where no window
/// was saved at all, it gets a window of its own on the first monitor that
/// comes.
pub proof fn law_profiles_without_a_window(
    clients: Seq<SessionClientView>,
    name: Seq<char>,
    settings: ConfigView,
    i: int,
)
    ensures
        clients.len() > 0 ==> targets::profile_base(clients, None, name, settings) == clients[0],
        0 <= i < clients.len() ==> targets::profile_base(clients, Some(i), name, settings)
            == clients[i],
        clients.len() == 0 ==> ({
            let base = targets::profile_base(clients, None, name, settings);
            &&& base.class == "brave-browser"@
            &&& base.title == name
            &&& base.monitor.len() == 0
            &&& base.address is None && base.stable_id is None && base.pid is None
            &&& !base.floating && !base.pinned && base.fullscreen == 0
        }),
{
    reveal_strlit("");
}

/// A session that lists profiles and whose Brave windows show none opens its
/// only profile for its only window, and no profile where there are several of
/// either.
pub proof fn law_unshown_profiles_are_opened_only_beyond_doubt(
    session: SessionView,
    settings: ConfigView,
    i: int,
    j: int,
)
    requires
        settings.apps.len() == 0,
        session.brave_profiles.len() > 0,
        forall|k: int|
            0 <= k < session.clients.len() ==> (#[trigger] session.clients[k]).profile_directory
                is None,
        0 <= i < session.clients.len(),
        launch::is_brave(session.clients[i]),
    ensures
        ({
            let opened = targets::profile_targets(session, settings);
            let alone = forall|k: int|
                0 <= k < session.clients.len() && k != i ==> !launch::is_brave(
                    #[trigger] session.clients[k],
                );
            &&& opened is Some
            &&& alone && !session.clients[i].profile_identity_ambiguous
                && session.brave_profiles.len() == 1 ==> opened->0 == session.brave_profiles
            &&& session.brave_profiles.len() > 1 ==> opened->0.len() == 0
            &&& session.clients[i].profile_identity_ambiguous ==> opened->0.len() == 0
            &&& 0 <= j < session.clients.len() && j != i && launch::is_brave(session.clients[j])
                ==> opened->0.len() == 0
        }),
{
    assert(lists::key_from(settings.apps, "brave-browser"@, 0) is None);
    assert(lists::key_from(settings.apps, ""@, 0) is None);
    let shown = targets::saved_profiles(session.clients);
    if shown.len() > 0 {
        lemma_saved_profiles(session.clients, shown[0]);
        assert(shown.contains(shown[0]));
        let m = choose|m: int|
            0 <= m < session.clients.len() && shows_profile(
                #[trigger] session.clients[m],
                shown[0],
            );
        assert(session.clients[m].profile_directory is None);
    }
    lemma_brave_count(session.clients, i, j);
}

proof fn lemma_brave_count(clients: Seq<SessionClientView>, i: int, j: int)
    requires
        0 <= i < clients.len(),
        launch::is_brave(clients[i]),
    ensures
        targets::brave_count(clients) >= 1,
        (forall|k: int| 0 <= k < clients.len() && k != i ==> !launch::is_brave(#[trigger] clients[k]))
            ==> targets::brave_count(clients) == 1,
        0 <= j < clients.len() && j != i && launch::is_brave(clients[j]) ==> targets::brave_count(
            clients,
        ) >= 2,
    decreases clients.len(),
{
    let front = clients.drop_last();
    let last = clients.len() - 1;
    assert(clients.last() == clients[last]);
    if i < last {
        assert(front[i] == clients[i]);
        lemma_brave_count(front, i, j);
        if 0 <= j < last {
            assert(front[j] == clients[j]);
        }
        if forall|k: int|
            0 <= k < clients.len() && k != i ==> !launch::is_brave(#[trigger] clients[k]) {
            assert forall|k: int| 0 <= k < front.len() && k != i implies !launch::is_brave(
                #[trigger] front[k],
            ) by {
                assert(front[k] == clients[k]);
            }
            assert(!launch::is_brave(clients[last]));
        }
    } else {
        if 0 <= j < last && launch::is_brave(clients[j]) {
            assert(front[j] == clients[j]);
            lemma_brave_count(front, j, j);
        }
        if forall|k: int|
            0 <= k < clients.len() && k != i ==> !launch::is_brave(#[trigger] clients[k]) {
            assert forall|k: int| 0 <= k < front.len() implies !launch::is_brave(
                #[trigger] front[k],
            ) by {
                assert(front[k] == clients[k]);
            }
            lemma_no_brave(front);
        }
    }
}

proof fn lemma_no_brave(clients: Seq<SessionClientView>)
    requires
        forall|k: int| 0 <= k < clients.len() ==> !launch::is_brave(#[trigger] clients[k]),
    ensures
        targets::brave_count(clients) == 0,
    decreases clients.len(),
{
    if clients.len() > 0 {
        let front = clients.drop_last();
        assert forall|k: int| 0 <= k < front.len() implies !launch::is_brave(
            #[trigger] front[k],
        ) by {
            assert(front[k] == clients[k]);
        }
        assert(!launch::is_brave(clients[clients.len() - 1]));
        lemma_no_brave(front);
    }
}

/// Two profiles that are opened take two windows, where there are two: the
/// second does not get the one that the first got.
pub proof fn law_profiles_take_different_windows(
    first: BraveProfileView,
    second: BraveProfileView,
    a: SessionClientView,
    b: SessionClientView,
    settings: ConfigView,
)
    requires
        settings.apps.len() == 0,
        a.profile_directory is None,
        b.profile_directory is None,
    ensures
        ({
            let plan = targets::profile_plan(seq![first, second], seq![a, b], settings).0;
            &&& plan.len() == 2
            &&& plan[0] == targets::profile_target(a, first, settings)
            &&& plan[1] == targets::profile_target(b, second, settings)
        }),
{
    assert(lists::key_from(settings.apps, "brave-browser"@, 0) is None);
    assert(lists::key_from(settings.apps, ""@, 0) is None);
    let clients = seq![a, b];
    let profiles = seq![first, second];
    let none = Seq::<BraveProfileView>::empty();
    assert(profiles.drop_last() =~= seq![first]);
    assert(seq![first].drop_last() =~= none);
    let p0 = targets::profile_plan(none, clients, settings);
    let free = Seq::new(clients.len(), |i: int| false);
    assert(p0.1 =~= free);
    assert(p0.0 =~= Seq::<ReconcileTargetView>::empty());
    assert(!free[0] && !free[1]);
    lemma_nobody_shows(clients, free, first.directory, 0);
    assert(targets::unused_from(free, 0) == Some(0int));
    let p1 = targets::profile_plan(seq![first], clients, settings);
    assert(p1.0 =~= seq![targets::profile_target(a, first, settings)]);
    let used = free.update(0, true);
    assert(p1.1 =~= used);
    assert(used[0] && !used[1]);
    lemma_nobody_shows(clients, used, second.directory, 0);
    assert(targets::unused_from(used, 1) == Some(1int));
    assert(targets::unused_from(used, 0) == Some(1int));
}

proof fn lemma_nobody_shows(
    clients: Seq<SessionClientView>,
    used: Seq<bool>,
    directory: Seq<char>,
    from: int,
)
    requires
        0 <= from <= clients.len(),
        forall|k: int| 0 <= k < clients.len() ==> (#[trigger] clients[k]).profile_directory is None,
    ensures
        targets::showing_from(clients, used, directory, from) is None,
    decreases clients.len() - from,
{
    if from < clients.len() {
        assert(clients[from].profile_directory is None);
        lemma_nobody_shows(clients, used, directory, from + 1);
    }
}

} // verus!
