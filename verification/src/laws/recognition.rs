//! Which open window is taken for a saved one, and which is preferred.

use crate::hyprctl::{HyprClientView, HyprWorkspaceView};
use crate::laws::texts;
use crate::process;
use crate::restore::identity;
use crate::restore::identity::{MatchKind, MatchPolicy, ObservedClientView};
use crate::session::{LaunchInfoView, SessionClientView};
use crate::text;
use vstd::prelude::*;

verus! {

// ── Kinds of windows ───────────────────────────────────────────────────────

/// A class is neither one of Brave, nor of Ghostty, nor of Chromium, nor of a
/// web application.
pub open spec fn is_ordinary_class(class: Seq<char>) -> bool {
    &&& !text::same_ignoring_case(class, "brave-browser"@)
    &&& !text::same_ignoring_case(class, "ghostty"@)
    &&& !text::same_ignoring_case(class, "com.mitchellh.ghostty"@)
    &&& !text::same_ignoring_case(class, "chromium"@)
    &&& !text::starts_with_ignoring_case(class, "chrome-"@)
}

/// A saved window of an ordinary application.
pub open spec fn is_ordinary(target: SessionClientView) -> bool {
    &&& is_ordinary_class(target.class)
    &&& is_ordinary_class(target.initial_class)
    &&& target.profile_directory is None
}

/// The window stood at an address that the open one does not have.
pub open spec fn has_moved(target: SessionClientView, observed: ObservedClientView) -> bool {
    &&& target.address is Some
    &&& target.address->0.len() > 0
    &&& !text::same_ignoring_case(target.address->0, observed.client.address)
}

/// The window stands at its address.
pub open spec fn is_at_home(target: SessionClientView, observed: ObservedClientView) -> bool {
    &&& target.address is Some
    &&& target.address->0.len() > 0
    &&& target.address->0 == observed.client.address
}

/// Nothing tells one window of a process from another.
pub open spec fn is_unidentified(target: SessionClientView) -> bool {
    target.pid is None && target.process_start_time is None && target.stable_id is None
}

// ── Opened again ───────────────────────────────────────────────────────────

/// The command line of a program starts with the path of its executable.
proof fn lemma_program(directory: Seq<char>, name: Seq<char>, rest: Seq<char>)
    requires
        texts::is_directory_part(directory),
        texts::is_file_name(name),
        texts::is_word(directory + name),
        rest.len() > 0 ==> text::is_space(rest[0]),
    ensures
        process::program(directory + name + rest) == Some(name),
{
    texts::law_words_are_split_by_white_space(directory + name, rest);
    texts::law_last_name_of_a_path(directory, name);
    let all = text::words(directory + name + rest);
    assert(all[0] == directory + name);
}

/// A window that was opened again elsewhere is found by its title together
/// with its program: where the class and the title are the saved ones and the
/// process runs the saved executable, from whatever directory and with
/// whatever arguments, it is matched, though no working directory is known.
pub proof fn law_reopened_window_is_known_by_its_program(
    target: SessionClientView,
    observed: ObservedClientView,
    saved_directory: Seq<char>,
    running_directory: Seq<char>,
    name: Seq<char>,
    rest: Seq<char>,
)
    requires
        is_ordinary(target),
        has_moved(target, observed),
        target.class.len() > 0,
        target.class == observed.client.class,
        target.title.len() > 0,
        target.title == observed.client.title,
        texts::is_directory_part(saved_directory),
        texts::is_directory_part(running_directory),
        texts::is_file_name(name),
        target.launch.command == saved_directory + name,
        texts::is_word(running_directory + name),
        rest.len() > 0 ==> text::is_space(rest[0]),
        observed.process_command == Some(running_directory + name + rest),
    ensures
        identity::match_value(target, observed, MatchPolicy::Normal) is Some,
        identity::match_value(target, observed, MatchPolicy::ReplacementCompletion) is Some,
{
    lemma_program(running_directory, name, rest);
    texts::law_last_name_of_a_path(saved_directory, name);
    assert(identity::programs_agree(target, observed));
    assert(identity::is_relaunched(target, observed));
}

/// The first argument that names a directory names this one.
pub open spec fn opens_in(launch: LaunchInfoView, directory: Seq<char>) -> bool {
    &&& launch.args.len() >= 1
    &&& {
        ||| launch.args.len() >= 2 && (launch.args[0] == "--directory"@ || launch.args[0]
            == "--working-directory"@ || launch.args[0] == "-d"@) && launch.args[1] == directory
        ||| launch.args[0] == "--directory="@ + directory
        ||| launch.args[0] == "--working-directory="@ + directory
    }
}

pub(crate) proof fn lemma_opens_in(target: SessionClientView, directory: Seq<char>)
    requires
        opens_in(target.launch, directory),
    ensures
        identity::saved_directory(target) == Some(directory),
{
    reveal_strlit("--directory");
    reveal_strlit("--working-directory");
    reveal_strlit("-d");
    reveal_strlit("--directory=");
    reveal_strlit("--working-directory=");
    let first = target.launch.args[0];
    if first == "--directory="@ + directory {
        assert(first.take("--directory="@.len() as int) =~= "--directory="@);
        assert(first.skip("--directory="@.len() as int) =~= directory);
        assert(first[11] == '=');
    } else if first == "--working-directory="@ + directory {
        assert(first.take("--working-directory="@.len() as int) =~= "--working-directory="@);
        assert(first.skip("--working-directory="@.len() as int) =~= directory);
        assert(first[2] == 'w');
        assert(first[19] == '=');
        if text::starts_with(first, "--directory="@) {
            assert(first.take("--directory="@.len() as int)[2] == 'd');
        }
    }
}

/// A window that was opened again elsewhere is found by its title together
/// with its directory: where the class and the title are the saved ones and
/// the process works in the saved directory, it is matched, though its command
/// line is not known.
pub proof fn law_reopened_window_is_known_by_its_directory(
    target: SessionClientView,
    observed: ObservedClientView,
    directory: Seq<char>,
)
    requires
        is_ordinary(target),
        has_moved(target, observed),
        target.class.len() > 0,
        target.class == observed.client.class,
        target.title.len() > 0,
        target.title == observed.client.title,
        directory.len() > 0,
        opens_in(target.launch, directory),
        observed.cwd == Some(directory) || observed.cwd == Some(directory + seq!['/']),
    ensures
        identity::match_value(target, observed, MatchPolicy::Normal) == Some(
            (score(target, observed), MatchKind::ExactIdentity),
        ),
        identity::match_value(target, observed, MatchPolicy::ReplacementCompletion) is Some,
{
    lemma_opens_in(target, directory);
    texts::law_same_paths(directory, seq![]);
    assert(identity::directories_agree(target, observed));
    assert(identity::is_relaunched(target, observed));
}

/// A title alone does not make a window the saved one opened again: where
/// neither the command line of its process nor a directory speaks for it, it
/// is not matched.  It still shows that a replacement was completed.
pub proof fn law_title_alone_is_not_enough(
    target: SessionClientView,
    observed: ObservedClientView,
)
    requires
        is_ordinary(target),
        has_moved(target, observed),
        target.class.len() > 0,
        target.class == observed.client.class,
        target.title.len() > 0,
        target.title == observed.client.title,
        observed.process_command is None,
        observed.cwd is None || target.launch.args.len() == 0,
    ensures
        identity::match_value(target, observed, MatchPolicy::Normal) is None,
        identity::match_value(target, observed, MatchPolicy::ReplacementCompletion) is Some,
{
}

// ── At the saved address ───────────────────────────────────────────────────

/// An ordinary window that stands at its address is matched, whatever became
/// of its title, as long as nothing was saved that could tell it from others
/// and it shows no stable identifier.
pub proof fn law_window_at_its_address_is_matched(
    target: SessionClientView,
    observed: ObservedClientView,
    policy: MatchPolicy,
)
    requires
        is_ordinary(target),
        is_at_home(target, observed),
        is_unidentified(target),
        target.class.len() > 0,
        target.class == observed.client.class,
        observed.client.stable_id is None,
        observed.process_start_time is None,
    ensures
        identity::match_value(target, observed, policy) == Some(
            (score(target, observed), MatchKind::ExactIdentity),
        ),
{
}

/// A stable identifier decides over the window at the saved address: the saved
/// one is matched, whatever its process is, another one is not, and neither is
/// one without it.
pub proof fn law_stable_identifier_decides_at_the_address(
    target: SessionClientView,
    observed: ObservedClientView,
    policy: MatchPolicy,
    id: Seq<char>,
)
    requires
        is_ordinary(target),
        is_at_home(target, observed),
        target.class.len() > 0,
        target.class == observed.client.class,
        target.stable_id == Some(id),
        id.len() > 0,
    ensures
        observed.client.stable_id == Some(id) ==> identity::match_value(target, observed, policy)
            is Some,
        observed.client.stable_id is Some && observed.client.stable_id->0.len() > 0
            && !text::same_ignoring_case(observed.client.stable_id->0, id)
            ==> identity::match_value(target, observed, policy) is None,
        observed.client.stable_id is None ==> identity::match_value(target, observed, policy)
            is None,
{
}

/// Addresses are used again.  A window at the saved address that has a stable
/// identifier, while none was saved, may be another one, and so may one of
/// which only the process is known: neither is matched.
pub proof fn law_unproven_window_at_the_address_is_left_alone(
    target: SessionClientView,
    observed: ObservedClientView,
    policy: MatchPolicy,
)
    requires
        is_at_home(target, observed),
        target.stable_id is None,
        observed.client.stable_id is Some && observed.client.stable_id->0.len() > 0
            || target.pid is Some || target.process_start_time is Some,
    ensures
        identity::match_value(target, observed, policy) is None,
{
}

// ── Classes and profiles ───────────────────────────────────────────────────

/// A window of another application is never matched.  Classes are compared up
/// to case, each with its own kind.
pub proof fn law_other_applications_are_not_matched(
    target: SessionClientView,
    observed: ObservedClientView,
    policy: MatchPolicy,
)
    requires
        !text::same_ignoring_case(target.class, observed.client.class),
        !text::same_ignoring_case(target.initial_class, observed.client.initial_class),
    ensures
        identity::match_value(target, observed, policy) is None,
{
}

/// A saved profile has to be the one of the window.
pub proof fn law_other_profiles_are_not_matched(
    target: SessionClientView,
    observed: ObservedClientView,
    policy: MatchPolicy,
)
    requires
        target.profile_directory is Some,
        observed.profile_directory is None || !text::same_ignoring_case(
            target.profile_directory->0,
            observed.profile_directory->0,
        ),
    ensures
        identity::match_value(target, observed, policy) is None,
{
}

/// A Brave window that was opened again elsewhere is known by its profile, as
/// long as the profile is beyond doubt on both sides; without a profile, or
/// with one in doubt, no Brave window is matched.
pub proof fn law_brave_window_is_known_by_its_profile(
    target: SessionClientView,
    observed: ObservedClientView,
    policy: MatchPolicy,
    profile: Seq<char>,
)
    requires
        target.class == "brave-browser"@,
        target.initial_class == "brave-browser"@,
        observed.client.class == "brave-browser"@,
        has_moved(target, observed),
    ensures
        profile.len() > 0 && target.profile_directory == Some(profile)
            && observed.profile_directory == Some(profile) && !target.profile_identity_ambiguous
            && !observed.profile_identity_ambiguous ==> identity::match_value(
            target,
            observed,
            policy,
        ) is Some,
        target.profile_directory is None ==> identity::match_value(target, observed, policy)
            is None,
        target.profile_identity_ambiguous || observed.profile_identity_ambiguous
            ==> identity::match_value(target, observed, policy) is None,
{
    reveal_strlit("brave-browser");
    reveal_strlit("chromium");
    reveal_strlit("chrome-");
    assert(text::lowered("brave-browser"@).len() == 13);
    assert(text::lowered("chromium"@).len() == 8);
    assert("brave-browser"@.take(7)[0] == 'b');
    assert(text::lowered("brave-browser"@.take(7))[0] == 'b');
    assert(text::lowered("chrome-"@)[0] == 'c');
}

/// A Chromium window is known by its address alone: at another one it is not
/// matched, and no more is a web application at another address while open
/// windows are repaired.
pub proof fn law_chromium_window_is_known_by_its_address(
    target: SessionClientView,
    observed: ObservedClientView,
    policy: MatchPolicy,
)
    requires
        has_moved(target, observed),
    ensures
        target.class == "chromium"@ && !text::starts_with_ignoring_case(
            target.initial_class,
            "chrome-"@,
        ) ==> identity::match_value(target, observed, policy) is None,
        text::starts_with_ignoring_case(target.class, "chrome-"@) ==> identity::match_value(
            target,
            observed,
            MatchPolicy::Normal,
        ) is None,
{
    reveal_strlit("chromium");
    reveal_strlit("chrome-");
    assert("chromium"@.take(7)[5] == 'i');
    assert(text::lowered("chromium"@.take(7))[5] == 'i');
    assert(text::lowered("chrome-"@)[5] == 'e');
}

// ── Scores ─────────────────────────────────────────────────────────────────

/// What a match is worth.
pub open spec fn score(target: SessionClientView, observed: ObservedClientView) -> int {
    identity::match_points(target, observed)
}

/// A matched window gets its score, under either policy, and the score depends
/// on the policy in no way.
pub proof fn law_match_is_worth_its_score(
    target: SessionClientView,
    observed: ObservedClientView,
    policy: MatchPolicy,
)
    ensures
        match identity::match_value(target, observed, policy) {
            Some((value, _)) => value == score(target, observed),
            None => true,
        },
{
}

/// The window at the saved address is worth more than any window elsewhere.
pub proof fn law_saved_address_is_worth_most(
    target: SessionClientView,
    home: ObservedClientView,
    elsewhere: ObservedClientView,
)
    requires
        is_at_home(target, home),
        has_moved(target, elsewhere),
    ensures
        score(target, home) > score(target, elsewhere),
{
}

/// Of two windows that differ in their titles alone the one with the saved
/// title is worth more, and of two without it, the one with the saved initial
/// title.
pub proof fn law_saved_title_is_worth_more(
    target: SessionClientView,
    observed: ObservedClientView,
    title: Seq<char>,
    initial: Seq<char>,
)
    ensures
        target.title.len() > 0 && observed.client.title == target.title
            && !text::same_ignoring_case(target.title, title) ==> score(target, observed) > score(
            target,
            (ObservedClientView {
                client: HyprClientView { title, ..observed.client },
                ..observed
            }),
        ),
        target.initial_title.len() > 0 && observed.client.initial_title == target.initial_title
            && !text::same_ignoring_case(target.initial_title, initial)
            && !text::same_ignoring_case(target.title, observed.client.title) ==> score(
            target,
            observed,
        ) > score(
            target,
            (ObservedClientView {
                client: HyprClientView { initial_title: initial, ..observed.client },
                ..observed
            }),
        ),
{
}

/// Of two windows that differ in their classes alone the one with the saved
/// class is worth more; the initial class counts for itself.
pub proof fn law_saved_class_is_worth_more(
    target: SessionClientView,
    observed: ObservedClientView,
    class: Seq<char>,
)
    ensures
        target.class.len() > 0 && observed.client.class == target.class
            && !text::same_ignoring_case(target.class, class) ==> score(target, observed) > score(
            target,
            (ObservedClientView {
                client: HyprClientView { class, ..observed.client },
                ..observed
            }),
        ),
        target.initial_class.len() > 0 && observed.client.initial_class == target.initial_class
            && !text::same_ignoring_case(target.initial_class, class) ==> score(target, observed)
            > score(
            target,
            (ObservedClientView {
                client: HyprClientView { initial_class: class, ..observed.client },
                ..observed
            }),
        ),
{
}

/// A window in the saved directory is worth more than one whose directory is
/// not known, and that one more than a window in another directory.  The right
/// directory outweighs any title.
pub proof fn law_saved_directory_is_worth_more(
    target: SessionClientView,
    observed: ObservedClientView,
    parent: Seq<char>,
    name: Seq<char>,
    other: Seq<char>,
    title: Seq<char>,
)
    requires
        texts::is_directory_part(parent),
        texts::is_file_name(name),
        texts::is_file_name(other),
        name != other,
        opens_in(target.launch, parent + name),
    ensures
        ({
            let right = ObservedClientView { cwd: Some(parent + name), ..observed };
            let unknown = ObservedClientView { cwd: None, ..observed };
            let wrong = ObservedClientView { cwd: Some(parent + other), ..observed };
            &&& score(target, right) > score(target, unknown)
            &&& score(target, unknown) > score(target, wrong)
            &&& score(
                target,
                (ObservedClientView {
                    client: HyprClientView { title, ..right.client },
                    ..right
                }),
            ) > score(target, wrong)
        }),
{
    lemma_opens_in(target, parent + name);
    texts::law_same_paths(parent + name, seq![]);
    texts::law_other_names_are_other_paths(parent, name, other);
}

/// How far two points lie apart along the axes.
pub open spec fn steps(a: (int, int), b: (int, int)) -> int {
    (if a.0 < b.0 {
        b.0 - a.0
    } else {
        a.0 - b.0
    }) + (if a.1 < b.1 {
        b.1 - a.1
    } else {
        a.1 - b.1
    })
}

/// Of two windows that differ in their place alone, the nearer one is never
/// worth less, and one at the saved place is worth more than one elsewhere;
/// likewise for the size.
pub proof fn law_nearer_window_is_worth_no_less(
    target: SessionClientView,
    observed: ObservedClientView,
    near: (int, int),
    far: (int, int),
)
    ensures
        ({
            let at_near = ObservedClientView {
                client: HyprClientView { at: near, ..observed.client },
                ..observed
            };
            let at_far = ObservedClientView {
                client: HyprClientView { at: far, ..observed.client },
                ..observed
            };
            let of_near = ObservedClientView {
                client: HyprClientView { size: near, ..observed.client },
                ..observed
            };
            let of_far = ObservedClientView {
                client: HyprClientView { size: far, ..observed.client },
                ..observed
            };
            &&& steps(target.at, near) <= steps(target.at, far) ==> score(target, at_near) >= score(
                target,
                at_far,
            )
            &&& near == target.at && far != target.at ==> score(target, at_near) > score(
                target,
                at_far,
            )
            &&& steps(target.at, near) < steps(target.at, far) <= 120 ==> score(target, at_near)
                > score(target, at_far)
            &&& steps(target.size, near) <= steps(target.size, far) ==> score(target, of_near)
                >= score(target, of_far)
            &&& near == target.size && far != target.size ==> score(target, of_near) > score(
                target,
                of_far,
            )
            &&& steps(target.size, near) < steps(target.size, far) <= 90 ==> score(target, of_near)
                > score(target, of_far)
        }),
{
}

/// Of two windows that differ in their monitor alone, the one on the saved
/// monitor is worth more; of two that differ in a numbered workspace alone,
/// the one on the saved workspace.
pub proof fn law_saved_place_is_worth_more(
    target: SessionClientView,
    observed: ObservedClientView,
    monitor: Option<Seq<char>>,
    id: int,
)
    ensures
        ({
            let elsewhere = ObservedClientView { monitor_name: monitor, ..observed };
            let workspace = HyprWorkspaceView { id, ..observed.client.workspace };
            let away = ObservedClientView {
                client: HyprClientView { workspace, ..observed.client },
                ..observed
            };
            &&& target.monitor.len() > 0 && observed.monitor_name == Some(target.monitor) && (
            monitor is None || !text::same_ignoring_case(target.monitor, monitor->0)) ==> score(
                target,
                observed,
            ) > score(target, elsewhere)
            &&& target.workspace_name.len() == 0 && observed.client.workspace.id == target.workspace
                && id != target.workspace ==> score(target, observed) > score(target, away)
        }),
{
}

// ── Titles ─────────────────────────────────────────────────────────────────

/// A saved window without an address is found by its application, unless the
/// titles speak against it: the initial titles differ and no title agrees.
/// The title of a window changes while it lives, so a title alone that became
/// another one does not speak against it.
pub proof fn law_other_initial_titles_speak_against_a_window(
    target: SessionClientView,
    observed: ObservedClientView,
)
    requires
        is_ordinary(target),
        target.address is None,
        target.class.len() > 0,
        target.class == observed.client.class,
        target.launch.args.len() == 0,
    ensures
        ({
            let now = observed.client;
            let value = identity::match_value(target, observed, MatchPolicy::Normal);
            &&& target.initial_title.len() > 0 && now.initial_title.len() > 0
                && !text::same_ignoring_case(target.initial_title, now.initial_title)
                && !text::same_ignoring_case(target.title, now.title)
                && !text::same_ignoring_case(target.title, now.initial_title)
                && !text::same_ignoring_case(target.initial_title, now.title)
                && !identity::similar(target.title, now.title) ==> value is None
            &&& target.initial_title.len() > 0 && target.initial_title == now.initial_title
                ==> value is Some
            &&& target.title.len() > 0 && target.title == now.title ==> value is Some
            &&& target.initial_title.len() == 0 || now.initial_title.len() == 0 ==> value is Some
        }),
{
}

/// Another title in another directory speaks against a window, unless the
/// initial titles agree.
pub proof fn law_other_title_and_directory_speak_against_a_window(
    target: SessionClientView,
    observed: ObservedClientView,
    parent: Seq<char>,
    name: Seq<char>,
    other: Seq<char>,
)
    requires
        is_ordinary(target),
        target.address is None,
        target.class.len() > 0,
        target.class == observed.client.class,
        texts::is_directory_part(parent),
        texts::is_file_name(name),
        texts::is_file_name(other),
        name != other,
        opens_in(target.launch, parent + name),
        observed.cwd == Some(parent + other),
        target.title.len() > 0,
        observed.client.title.len() > 0,
        !text::same_ignoring_case(target.title, observed.client.title),
        !identity::similar(target.title, observed.client.title),
    ensures
        target.initial_title.len() == 0 ==> identity::match_value(
            target,
            observed,
            MatchPolicy::Normal,
        ) is None,
        target.initial_title.len() > 0 && target.initial_title == observed.client.initial_title
            ==> identity::match_value(target, observed, MatchPolicy::Normal) is Some,
{
    lemma_opens_in(target, parent + name);
    texts::law_other_names_are_other_paths(parent, name, other);
}

/// Titles are similar where one holds the other: which one makes no
/// difference, and neither does the white space between their words.
pub proof fn law_similar_titles(a: Seq<char>, b: Seq<char>, c: Seq<char>)
    ensures
        identity::similar(a, b) == identity::similar(b, a),
        text::words(a) == text::words(b) ==> identity::similar(a, c) == identity::similar(b, c),
{
}

/// A text that stands in another, in front, behind or between, is held by it.
pub proof fn law_held_texts_overlap(before: Seq<char>, part: Seq<char>, after: Seq<char>)
    requires
        part.len() > 0,
    ensures
        identity::one_holds_the_other(part, before + part + after),
        identity::one_holds_the_other(before + part + after, part),
        !identity::one_holds_the_other(part, seq![]),
{
    let s = before + part + after;
    let i = before.len() as int;
    assert(s.subrange(i, i + part.len()) =~= part);
    lemma_found(s, part, 0, i);
}

proof fn lemma_found(s: Seq<char>, part: Seq<char>, from: int, i: int)
    requires
        0 <= from <= i,
        text::occurs_at(s, part, i),
    ensures
        text::found_from(s, part, from) is Some,
    decreases i - from,
{
    if from < i {
        lemma_found(s, part, from + 1, i);
    }
}

// ── Reasons ────────────────────────────────────────────────────────────────

/// What speaks for a match: the window itself where the title or the
/// directory agrees; the application where only its initial class or title
/// does; and the class where nothing else does.
pub proof fn law_reasons_for_a_match(target: SessionClientView, observed: ObservedClientView)
    requires
        is_ordinary(target),
        target.address is None,
        target.class.len() > 0,
        target.class == observed.client.class,
        target.launch.args.len() == 0,
        identity::match_value(target, observed, MatchPolicy::Normal) is Some,
    ensures
        ({
            let now = observed.client;
            let kind = (identity::match_value(target, observed, MatchPolicy::Normal)->0).1;
            let same_title = target.title.len() > 0 && text::same_ignoring_case(
                target.title,
                now.title,
            );
            let same_class = target.initial_class.len() > 0 && text::same_ignoring_case(
                target.initial_class,
                now.initial_class,
            );
            let same_initial = target.initial_title.len() > 0 && text::same_ignoring_case(
                target.initial_title,
                now.initial_title,
            );
            &&& same_title ==> kind == MatchKind::ExactIdentity
            &&& !same_title && (same_class || same_initial) ==> kind == MatchKind::AppIdentity
            &&& !same_title && !same_class && !same_initial ==> kind == MatchKind::ClassFallback
        }),
{
    let now = observed.client;
    lemma_same_length(target.title, now.title);
    lemma_same_length(target.initial_class, now.initial_class);
    lemma_same_length(target.initial_title, now.initial_title);
}

proof fn lemma_same_length(a: Seq<char>, b: Seq<char>)
    ensures
        text::same_ignoring_case(a, b) ==> a.len() == b.len(),
{
    assert(text::lowered(a).len() == a.len());
    assert(text::lowered(b).len() == b.len());
}

// ── Weights ────────────────────────────────────────────────────────────────

/// What each agreement adds to a match, all else being equal: the saved
/// address far more than anything, the directory more than the title, the
/// title more than the initial one, the initial class more than the class,
/// and the workspace more than the monitor.
pub proof fn law_weights_of_agreements(
    target: SessionClientView,
    observed: ObservedClientView,
    other: Seq<char>,
    id: int,
)
    requires
        is_ordinary(target),
        target.address is Some,
        target.address->0.len() > 0,
        target.class.len() > 0,
        target.title.len() > 0,
        target.initial_title.len() > 0,
        target.initial_class.len() > 0,
        target.monitor.len() > 0,
        target.workspace_name.len() == 0,
        id != target.workspace,
        !text::same_ignoring_case(target.address->0, other),
        !text::same_ignoring_case(target.class, other),
        !text::same_ignoring_case(target.title, other),
        !text::same_ignoring_case(target.initial_title, other),
        !text::same_ignoring_case(target.initial_class, other),
        !text::same_ignoring_case(target.monitor, other),
        !identity::similar(target.title, other),
    ensures
        ({
            let c = observed.client;
            let with = |client: HyprClientView| score(
                target,
                ObservedClientView { client, ..observed },
            );
            let at = |monitor: Seq<char>| score(
                target,
                ObservedClientView { monitor_name: Some(monitor), ..observed },
            );
            &&& with(HyprClientView { address: target.address->0, ..c }) - with(
                HyprClientView { address: other, ..c },
            ) == 5000
            &&& with(HyprClientView { class: target.class, ..c }) - with(
                HyprClientView { class: other, ..c },
            ) == 100
            &&& with(HyprClientView { initial_class: target.initial_class, ..c }) - with(
                HyprClientView { initial_class: other, ..c },
            ) == 350
            &&& with(HyprClientView { title: target.title, initial_title: other, ..c }) - with(
                HyprClientView { title: other, initial_title: other, ..c },
            ) == 650
            &&& with(
                HyprClientView { title: other, initial_title: target.initial_title, ..c },
            ) - with(HyprClientView { title: other, initial_title: other, ..c }) == 450
            &&& with(
                HyprClientView {
                    workspace: HyprWorkspaceView { id: target.workspace, ..c.workspace },
                    ..c
                },
            ) - with(
                HyprClientView { workspace: HyprWorkspaceView { id, ..c.workspace }, ..c },
            ) == 180
            &&& at(target.monitor) - at(other) == 140
        }),
{
    assert(text::trimmed_start(target.workspace_name) == target.workspace_name);
    assert(text::trimmed_end(target.workspace_name) == target.workspace_name);
}

/// A title that only holds the saved one, or is held by it, adds less than the
/// same title does.
pub proof fn law_weight_of_similar_titles(
    target: SessionClientView,
    observed: ObservedClientView,
    close: Seq<char>,
    other: Seq<char>,
    initial: Seq<char>,
)
    requires
        target.title.len() > 0,
        !text::same_ignoring_case(target.title, close),
        !text::same_ignoring_case(target.title, other),
        !text::same_ignoring_case(target.initial_title, initial),
        identity::similar(target.title, close),
        !identity::similar(target.title, other),
    ensures
        ({
            let c = observed.client;
            let with = |title: Seq<char>| score(
                target,
                ObservedClientView {
                    client: HyprClientView { title, initial_title: initial, ..c },
                    ..observed
                },
            );
            with(close) - with(other) == 180 && with(target.title) - with(close) == 470
        }),
{
}

/// The right directory adds nine hundred over one that is not known, and a
/// wrong one takes a hundred and eighty away.
pub proof fn law_weight_of_directories(
    target: SessionClientView,
    observed: ObservedClientView,
    parent: Seq<char>,
    name: Seq<char>,
    other: Seq<char>,
)
    requires
        texts::is_directory_part(parent),
        texts::is_file_name(name),
        texts::is_file_name(other),
        name != other,
        opens_in(target.launch, parent + name),
    ensures
        ({
            let right = ObservedClientView { cwd: Some(parent + name), ..observed };
            let unknown = ObservedClientView { cwd: None, ..observed };
            let wrong = ObservedClientView { cwd: Some(parent + other), ..observed };
            &&& score(target, right) - score(target, unknown) == 900
            &&& score(target, unknown) - score(target, wrong) == 180
        }),
{
    lemma_opens_in(target, parent + name);
    texts::law_same_paths(parent + name, seq![]);
    texts::law_other_names_are_other_paths(parent, name, other);
}

/// Distance takes points away, one for each pixel up to a limit, from a window
/// that does not stand exactly where it was saved, and likewise for its size.
pub proof fn law_weight_of_distance(
    target: SessionClientView,
    observed: ObservedClientView,
    p: (int, int),
)
    ensures
        ({
            let c = observed.client;
            let at = |q: (int, int)| score(
                target,
                ObservedClientView { client: HyprClientView { at: q, ..c }, ..observed },
            );
            let of = |q: (int, int)| score(
                target,
                ObservedClientView { client: HyprClientView { size: q, ..c }, ..observed },
            );
            let d = steps(target.at, p);
            let e = steps(target.size, p);
            &&& p != target.at && d <= 120 ==> at(target.at) - at(p) == 120 + d
            &&& d > 120 ==> at(target.at) - at(p) == 240
            &&& p != target.size && e <= 90 ==> of(target.size) - of(p) == 90 + e
            &&& e > 90 ==> of(target.size) - of(p) == 180
        }),
{
}

// ── Kinds, again ───────────────────────────────────────────────────────────

/// An ordinary Chromium window bears the class of Chromium and none of a web
/// application; browsers are those, Brave, and web applications.
pub proof fn law_kinds_of_browsers(client: SessionClientView)
    ensures
        ({
            let web = text::starts_with_ignoring_case(client.class, "chrome-"@)
                || text::starts_with_ignoring_case(client.initial_class, "chrome-"@);
            let chromium = text::same_ignoring_case(client.class, "chromium"@)
                || text::same_ignoring_case(client.initial_class, "chromium"@);
            let brave = text::same_ignoring_case(client.class, "brave-browser"@)
                || text::same_ignoring_case(client.initial_class, "brave-browser"@);
            &&& identity::is_chromium(client) <==> chromium && !web
            &&& identity::is_browser(client) <==> brave || chromium || web
            &&& identity::lacks_profile(client) <==> brave && (client.profile_identity_ambiguous
                || client.profile_directory is None || client.profile_directory->0.len() == 0)
        }),
{
}

/// A window in the saved directory is matched, though all its titles became
/// others.
pub proof fn law_saved_directory_overrules_titles(
    target: SessionClientView,
    observed: ObservedClientView,
    directory: Seq<char>,
)
    requires
        is_ordinary(target),
        target.address is None,
        target.class.len() > 0,
        target.class == observed.client.class,
        directory.len() > 0,
        opens_in(target.launch, directory),
        observed.cwd == Some(directory),
    ensures
        identity::match_value(target, observed, MatchPolicy::Normal) == Some(
            (score(target, observed), MatchKind::ExactIdentity),
        ),
{
    lemma_opens_in(target, directory);
    texts::law_same_paths(directory, seq![]);
}

/// A Ghostty window is found by its application whatever its initial title
/// is: that speaks against nothing.
pub proof fn law_initial_titles_of_ghostty_windows(
    target: SessionClientView,
    observed: ObservedClientView,
)
    requires
        target.class == "com.mitchellh.ghostty"@,
        target.initial_class == target.class,
        target.profile_directory is None,
        target.address is None,
        target.class == observed.client.class,
        target.launch.args.len() == 0,
    ensures
        identity::match_value(target, observed, MatchPolicy::Normal) is Some,
{
    reveal_strlit("brave-browser");
    reveal_strlit("chromium");
    reveal_strlit("chrome-");
    reveal_strlit("com.mitchellh.ghostty");
    assert(text::lowered("brave-browser"@).len() == 13);
    assert(text::lowered("chromium"@).len() == 8);
    assert(text::lowered("com.mitchellh.ghostty"@).len() == 21);
}

} // verus!
