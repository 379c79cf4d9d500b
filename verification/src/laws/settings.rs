//! What users and their files ask for.

use crate::autosave;
use crate::autosave::{UnitFiles, UnitState};
use crate::commands;
use crate::config;
use crate::config::{AppConfigView, ConfigView, GeneralConfigView};
use crate::entries;
use crate::files::FileFacts;
use crate::laws::texts;
use crate::paths;
use crate::text;
use vstd::prelude::*;

verus! {

// ── Ages ───────────────────────────────────────────────────────────────────

pub(crate) proof fn lemma_digits_value(n: nat)
    ensures
        text::is_digits(text::digits(n)),
        text::value_of(text::digits(n)) == n,
    decreases n,
{
    let d = text::digits(n);
    if n >= 10 {
        lemma_digits_value(n / 10);
        let c = (48 + n % 10) as char;
        assert(c as int == 48 + n % 10);
        assert(d.drop_last() =~= text::digits(n / 10));
        assert(d.last() == c);
        assert forall|i: int| 0 <= i < d.len() implies text::is_digit(#[trigger] d[i]) by {
            if i < d.len() - 1 {
                assert(d[i] == text::digits(n / 10)[i]);
            }
        }
    } else {
        let c = (48 + n) as char;
        assert(c as int == 48 + n);
        assert(d.drop_last() =~= Seq::<char>::empty());
        assert(text::value_of(d.drop_last()) == 0);
        assert(d.last() == c);
    }
}

/// The seconds of an age in minutes, hours and days, as long as they can be
/// told in milliseconds; sixty minutes are an hour and twenty-four hours are a
/// day.  A number without a unit, or with another one, is no age.
pub proof fn law_ages_are_told_in_seconds(n: nat, unit: char)
    requires
        n <= u64::MAX,
    ensures
        ({
            let limit: int = 9_223_372_036_854_775;
            let minutes = commands::age_in(text::digits(n).push('m'));
            let hours = commands::age_in(text::digits(n).push('h'));
            let days = commands::age_in(text::digits(n).push('d'));
            &&& n * 60 <= limit ==> minutes == Some((n * 60) as nat)
            &&& n * 60 > limit ==> minutes is None
            &&& n * 60 * 60 <= limit ==> hours == Some((n * 60 * 60) as nat)
            &&& n * 60 * 60 > limit ==> hours is None
            &&& n * 60 * 60 * 24 <= limit ==> days == Some((n * 60 * 60 * 24) as nat)
            &&& n * 60 * 60 * 24 > limit ==> days is None
            &&& unit != 'm' && unit != 'h' && unit != 'd' ==> commands::age_in(
                text::digits(n).push(unit),
            ) is None
            &&& commands::age_in(text::digits(n)) is None
            &&& commands::age_in(seq![]) is None
        }),
{
    let d = text::digits(n);
    lemma_digits_value(n);
    assert(text::is_digit(d[0]));
    assert(d.push('m').drop_last() =~= d);
    assert(d.push('h').drop_last() =~= d);
    assert(d.push('d').drop_last() =~= d);
    assert(text::is_digit(d[d.len() - 1]));
    assert(d.last() == d[d.len() - 1]);
    assert(d.push(unit).last() == unit);
    assert(commands::unit_seconds('m') == Some(60nat));
    assert(commands::unit_seconds('h') == Some(3600nat));
    assert(commands::unit_seconds('d') == Some(86400nat));
    assert(d[0] != '+');
    assert(text::number_up_to(d, u64::MAX as int) == Some(n));
    lemma_age(d, 'm', 60, n);
    lemma_age(d, 'h', 3600, n);
    lemma_age(d, 'd', 86400, n);
}

proof fn lemma_age(d: Seq<char>, unit: char, seconds: nat, n: nat)
    requires
        text::number_up_to(d, u64::MAX as int) == Some(n),
        commands::unit_seconds(unit) == Some(seconds),
    ensures
        commands::age_in(d.push(unit)) == if n * seconds <= 9_223_372_036_854_775 {
            Some(n * seconds)
        } else {
            None
        },
{
    assert(d.push(unit).drop_last() =~= d);
    assert(d.push(unit).last() == unit);
}

/// Ages are not negative.
pub proof fn law_ages_are_not_negative(s: Seq<char>, unit: char)
    ensures
        commands::age_in((seq!['-'] + s).push(unit)) is None,
{
    let body = seq!['-'] + s;
    assert(body.push(unit).drop_last() =~= body);
    assert(body[0] == '-');
    assert(!text::is_digit(body[0]));
}

// ── Automatic sessions ─────────────────────────────────────────────────────

/// Every automatic session beyond the newest ones goes, unless a replacement
/// is recovered from it, and nothing else goes.
pub proof fn law_old_autosaves_go(
    names: Seq<Seq<char>>,
    retain: nat,
    kept: Option<Seq<char>>,
    name: Seq<char>,
)
    ensures
        commands::pruned(names, retain, kept).contains(name) <==> Some(name) != kept && exists|
            i: int,
        |
            retain <= i < names.len() && #[trigger] names[i] == name,
{
    let start = if retain < names.len() {
        retain as int
    } else {
        names.len() as int
    };
    let old = names.skip(start);
    let keep = |other: Seq<char>| Some(other) != kept;
    let left = commands::pruned(names, retain, kept);
    assert(left == old.filter(keep));
    if left.contains(name) {
        let k = choose|k: int| 0 <= k < left.len() && left[k] == name;
        old.lemma_filter_pred(keep, k);
        old.lemma_filter_contains_rev(keep, left[k]);
        let j = choose|j: int| 0 <= j < old.len() && old[j] == left[k];
        assert(names[start + j] == name);
    }
    if Some(name) != kept && exists|i: int| retain <= i < names.len() && #[trigger] names[i]
        == name {
        let i = choose|i: int| retain <= i < names.len() && #[trigger] names[i] == name;
        assert(old[i - start] == name);
        old.lemma_filter_contains(keep, i - start);
    }
}

// ── Limits ─────────────────────────────────────────────────────────────────

/// Settings are brought to the nearest value that is allowed: a delay of one
/// minute at most, between half a second and two minutes for a window to
/// appear, and a thousand automatic sessions.
pub proof fn law_settings_are_brought_to_the_nearest_allowed(general: GeneralConfigView)
    ensures
        ({
            let g = config::normalized(general);
            &&& g.default_session == general.default_session
            &&& g.restore_delay_ms <= 60_000
            &&& general.restore_delay_ms <= 60_000 ==> g.restore_delay_ms
                == general.restore_delay_ms
            &&& general.restore_delay_ms > 60_000 ==> g.restore_delay_ms == 60_000
            &&& 500 <= g.window_detect_timeout_ms <= 120_000
            &&& 500 <= general.window_detect_timeout_ms <= 120_000
                ==> g.window_detect_timeout_ms == general.window_detect_timeout_ms
            &&& general.window_detect_timeout_ms < 500 ==> g.window_detect_timeout_ms == 500
            &&& general.window_detect_timeout_ms > 120_000 ==> g.window_detect_timeout_ms
                == 120_000
            &&& g.autosave_retain <= 1_000
            &&& general.autosave_retain <= 1_000 ==> g.autosave_retain == general.autosave_retain
            &&& general.autosave_retain > 1_000 ==> g.autosave_retain == 1_000
        }),
{
}

/// A text that is short enough.
pub open spec fn is_short(s: Seq<char>) -> bool {
    config::byte_length(s) <= 65_536
}

/// An optional text that is short enough.
pub open spec fn is_short_option(s: Option<Seq<char>>) -> bool {
    s is Some ==> is_short(s->0)
}

/// The settings of an application of moderate size.
pub open spec fn is_moderate(name: Seq<char>, app: AppConfigView) -> bool {
    &&& is_short(name)
    &&& is_short_option(app.binary)
    &&& is_short_option(app.hint_template)
    &&& app.profile_workspaces is Some ==> {
        &&& app.profile_workspaces->0.len() <= 4_096
        &&& forall|i: int|
            0 <= i < app.profile_workspaces->0.len() ==> is_short(
                (#[trigger] app.profile_workspaces->0[i]).0,
            )
    }
}

proof fn lemma_texts_problem(label: Seq<char>, values: Seq<Seq<char>>, from: int)
    requires
        0 <= from <= values.len(),
    ensures
        config::texts_problem(label, values, from) is None <==> forall|i: int|
            from <= i < values.len() ==> is_short(#[trigger] values[i]),
    decreases values.len() - from,
{
    if from < values.len() {
        lemma_texts_problem(label, values, from + 1);
        if is_short(values[from]) {
            assert(config::text_problem(label, values[from]) is None);
        }
    }
}

proof fn lemma_app_problem(name: Seq<char>, app: AppConfigView)
    ensures
        config::app_problem(name, app) is None <==> is_moderate(name, app),
{
    if app.profile_workspaces is Some {
        let entries = app.profile_workspaces->0;
        let keys = config::keys_of(entries);
        lemma_texts_problem("profile workspace name"@, keys, 0);
        assert forall|i: int| 0 <= i < entries.len() implies #[trigger] keys[i] == entries[i].0 by {}
        if forall|i: int| 0 <= i < keys.len() ==> is_short(#[trigger] keys[i]) {
            assert forall|i: int| 0 <= i < entries.len() implies is_short(
                (#[trigger] entries[i]).0,
            ) by {
                assert(is_short(keys[i]));
            }
        }
        if forall|i: int| 0 <= i < entries.len() ==> is_short((#[trigger] entries[i]).0) {
            assert forall|i: int| 0 <= i < keys.len() implies is_short(#[trigger] keys[i]) by {
                assert(is_short(entries[i].0));
            }
        }
    }
}

proof fn lemma_apps_problem(apps: Seq<(Seq<char>, AppConfigView)>, from: int)
    requires
        0 <= from <= apps.len(),
    ensures
        config::apps_problem(apps, from) is None <==> forall|i: int|
            from <= i < apps.len() ==> is_moderate((#[trigger] apps[i]).0, apps[i].1),
    decreases apps.len() - from,
{
    if from < apps.len() {
        lemma_app_problem(apps[from].0, apps[from].1);
        lemma_apps_problem(apps, from + 1);
    }
}

/// A configuration is accepted exactly if nothing in it is too long and there
/// is not too much of anything.
pub proof fn law_moderate_configurations_are_accepted(settings: ConfigView)
    ensures
        config::config_problem(settings) is None <==> {
            &&& is_short(settings.general.default_session)
            &&& settings.ignore_classes.len() <= 4_096
            &&& forall|i: int|
                0 <= i < settings.ignore_classes.len() ==> is_short(
                    #[trigger] settings.ignore_classes[i],
                )
            &&& settings.apps.len() <= 1_024
            &&& forall|i: int|
                0 <= i < settings.apps.len() ==> is_moderate(
                    (#[trigger] settings.apps[i]).0,
                    settings.apps[i].1,
                )
        },
{
    lemma_texts_problem("ignored class"@, settings.ignore_classes, 0);
    lemma_apps_problem(settings.apps, 0);
}

/// A configuration file is read only where it and its directory belong to the
/// user and nobody else may write to them, and where it is not larger than a
/// mebibyte.
pub proof fn law_configuration_is_read_from_private_files(
    file: FileFacts,
    parent: FileFacts,
    length: u64,
)
    ensures
        config::file_problem(file, parent, length) is None <==> {
            &&& file.is_file
            &&& parent.is_directory
            &&& file.is_owned && parent.is_owned
            &&& (file.mode / 16) % 2 == 0 && (file.mode / 2) % 2 == 0
            &&& (parent.mode / 16) % 2 == 0 && (parent.mode / 2) % 2 == 0
            &&& length <= 1024 * 1024
        },
{
    lemma_others_may_write(file.mode);
    lemma_others_may_write(parent.mode);
}

proof fn lemma_others_may_write(mode: u32)
    ensures
        mode & 0o022 == 0 <==> (mode / 16) % 2 == 0 && (mode / 2) % 2 == 0,
{
    assert(mode & 0o022 == 0 <==> (mode / 16) % 2 == 0 && (mode / 2) % 2 == 0) by (bit_vector);
}

// ── Desktop entries ────────────────────────────────────────────────────────

proof fn lemma_unique_names(all: Seq<Seq<char>>, i: int)
    requires
        0 <= i < all.len(),
    ensures
        entries::is_named(entries::unique_paths(all), all[i]),
    decreases all.len(),
{
    let front = all.drop_last();
    let before = entries::unique_paths(front);
    let after = entries::unique_paths(all);
    if i < all.len() - 1 {
        assert(front[i] == all[i]);
        lemma_unique_names(front, i);
        let k = choose|k: int| 0 <= k < before.len() && paths::same_path(#[trigger] before[k], all[i]);
        assert(after[k] == before[k]);
    } else if !entries::is_named(before, all.last()) {
        assert(after[before.len() as int] == all.last());
        assert(paths::same_path(after[before.len() as int], all[i]));
    }
}

proof fn lemma_unique_are_given(all: Seq<Seq<char>>, i: int)
    requires
        0 <= i < entries::unique_paths(all).len(),
    ensures
        all.contains(entries::unique_paths(all)[i]),
    decreases all.len(),
{
    let front = all.drop_last();
    let before = entries::unique_paths(front);
    if i < before.len() {
        lemma_unique_are_given(front, i);
        let k = choose|k: int| 0 <= k < front.len() && front[k] == before[i];
        assert(all[k] == before[i]);
    } else {
        assert(all[all.len() - 1] == entries::unique_paths(all)[i]);
    }
}

/// A directory below a root.
pub open spec fn applications(root: Seq<char>) -> Seq<char> {
    root + "/applications"@
}

/// The entries of a user stand before those of the system: the first
/// directory is that of `XDG_DATA_HOME`, or without it the one in the user's
/// home.
pub proof fn law_own_entries_come_first(
    data_home: Option<Seq<char>>,
    home: Option<Seq<char>>,
    data_dirs: Option<Seq<char>>,
)
    ensures
        ({
            let all = entries::entry_directories(data_home, home, data_dirs);
            &&& data_home is Some && data_home->0.len() > 0 && data_home->0.last() != '/'
                ==> all.len() > 0 && all[0] == applications(data_home->0)
            &&& data_home is None && home is Some && home->0.len() > 0 && home->0.last() != '/'
                ==> all.len() > 0 && all[0] == applications(home->0 + "/.local/share"@)
        }),
{
    reveal_strlit("/");
    reveal_strlit("applications");
    reveal_strlit("/applications");
    reveal_strlit(".local/share");
    reveal_strlit("/.local/share");
    let own = entries::own_root(data_home, home);
    let roots = (own + entries::shared_roots(data_dirs)).push("/usr/share/omarchy"@);
    let wanted = roots.map_values(|root: Seq<char>| entries::below(root, "applications"@));
    if own.len() > 0 {
        assert(roots[0] == own[0]);
        lemma_first_stays(wanted);
        if data_home is Some {
            if data_home->0.last() != '/' {
                assert(wanted[0] =~= applications(data_home->0));
            }
        } else if home->0.last() != '/' {
            let root = home->0 + "/.local/share"@;
            assert(own[0] =~= root);
            assert(root.last() == 'e');
            assert(wanted[0] =~= applications(root));
        }
    }
}

proof fn lemma_first_stays(all: Seq<Seq<char>>)
    requires
        all.len() > 0,
    ensures
        entries::unique_paths(all).len() > 0,
        entries::unique_paths(all)[0] == all[0],
    decreases all.len(),
{
    let front = all.drop_last();
    if all.len() > 1 {
        lemma_first_stays(front);
    } else {
        assert(entries::unique_paths(front) =~= Seq::<Seq<char>>::empty());
    }
}

/// Every directory of `XDG_DATA_DIRS` is looked through, the two usual ones
/// where that is not set, and the one of Omarchy in any case.
pub proof fn law_shared_entries_are_looked_through(
    data_home: Option<Seq<char>>,
    home: Option<Seq<char>>,
    before: Seq<char>,
    root: Seq<char>,
    after: Seq<char>,
)
    requires
        root.len() > 0,
        root.last() != '/',
        texts::is_free_of(root, ':'),
        before.len() == 0 || before.last() == ':',
        after.len() == 0 || after[0] == ':',
    ensures
        entries::is_named(
            entries::entry_directories(data_home, home, Some(before + root + after)),
            applications(root),
        ),
        entries::is_named(
            entries::entry_directories(data_home, home, None),
            "/usr/local/share/applications"@,
        ),
        entries::is_named(
            entries::entry_directories(data_home, home, None),
            "/usr/share/applications"@,
        ),
        entries::is_named(
            entries::entry_directories(data_home, home, Some(before + root + after)),
            "/usr/share/omarchy/applications"@,
        ),
        entries::is_named(
            entries::entry_directories(data_home, home, None),
            "/usr/share/omarchy/applications"@,
        ),
{
    reveal_strlit("/");
    reveal_strlit("applications");
    reveal_strlit("/applications");
    reveal_strlit("/usr/local/share");
    reveal_strlit("/usr/share");
    reveal_strlit("/usr/share/omarchy");
    reveal_strlit("/usr/local/share/applications");
    reveal_strlit("/usr/share/applications");
    reveal_strlit("/usr/share/omarchy/applications");
    let own = entries::own_root(data_home, home);
    let list = before + root + after;
    lemma_piece(before, root, after);
    let keep = |directory: Seq<char>| directory.len() > 0;
    let all = text::pieces(list, ':');
    let k = choose|k: int| 0 <= k < all.len() && all[k] == root;
    all.lemma_filter_contains(keep, k);
    let shared = entries::shared_roots(Some(list));
    assert(shared == all.filter(keep));
    let j = choose|j: int| 0 <= j < shared.len() && shared[j] == root;
    lemma_root_is_named(own, shared, own.len() + j, root);
    assert(entries::below(root, "applications"@) =~= applications(root));
    let n = own.len() + shared.len();
    lemma_root_is_named(own, shared, n as int, "/usr/share/omarchy"@);
    assert(entries::below("/usr/share/omarchy"@, "applications"@)
        =~= "/usr/share/omarchy/applications"@);
    let usual = entries::shared_roots(None);
    lemma_root_is_named(own, usual, own.len() as int, "/usr/local/share"@);
    assert(entries::below("/usr/local/share"@, "applications"@)
        =~= "/usr/local/share/applications"@);
    lemma_root_is_named(own, usual, own.len() + 1int, "/usr/share"@);
    assert(entries::below("/usr/share"@, "applications"@) =~= "/usr/share/applications"@);
    lemma_root_is_named(own, usual, own.len() + 2int, "/usr/share/omarchy"@);
}

proof fn lemma_root_is_named(
    own: Seq<Seq<char>>,
    shared: Seq<Seq<char>>,
    i: int,
    root: Seq<char>,
)
    requires
        0 <= i < (own + shared).push("/usr/share/omarchy"@).len(),
        (own + shared).push("/usr/share/omarchy"@)[i] == root,
    ensures
        entries::is_named(
            entries::unique_paths(
                (own + shared).push("/usr/share/omarchy"@).map_values(
                    |r: Seq<char>| entries::below(r, "applications"@),
                ),
            ),
            entries::below(root, "applications"@),
        ),
{
    let wanted = (own + shared).push("/usr/share/omarchy"@).map_values(
        |r: Seq<char>| entries::below(r, "applications"@),
    );
    lemma_unique_names(wanted, i);
}

proof fn lemma_piece(before: Seq<char>, root: Seq<char>, after: Seq<char>)
    requires
        texts::is_free_of(root, ':'),
        before.len() == 0 || before.last() == ':',
        after.len() == 0 || after[0] == ':',
    ensures
        text::pieces(before + root + after, ':').contains(root),
{
    let c = ':';
    texts::law_text_without_separator_is_one_piece(root, c);
    let tail = root + after;
    assert(text::pieces(tail, c).len() > 0 && text::pieces(tail, c)[0] == root) by {
        if after.len() == 0 {
            assert(tail =~= root);
        } else {
            assert(tail =~= root + seq![c] + after.drop_first());
            texts::law_pieces_of_two_texts(root, c, after.drop_first());
        }
    }
    let list = before + root + after;
    if before.len() == 0 {
        assert(list =~= tail);
        assert(text::pieces(list, c)[0] == root);
    } else {
        let front = before.drop_last();
        assert(list =~= front + seq![c] + tail);
        texts::law_pieces_of_two_texts(front, c, tail);
        assert(text::pieces(list, c)[text::pieces(front, c).len() as int] == root);
    }
}

/// No other directory is looked through: each stems from a root that the
/// environment names, from the usual ones, or from Omarchy.
pub proof fn law_no_other_entries_are_looked_through(
    data_home: Option<Seq<char>>,
    home: Option<Seq<char>>,
    data_dirs: Option<Seq<char>>,
    i: int,
)
    requires
        0 <= i < entries::entry_directories(data_home, home, data_dirs).len(),
    ensures
        ({
            let directory = entries::entry_directories(data_home, home, data_dirs)[i];
            let roots = (entries::own_root(data_home, home) + entries::shared_roots(
                data_dirs,
            )).push("/usr/share/omarchy"@);
            exists|k: int|
                0 <= k < roots.len() && directory == entries::below(
                    #[trigger] roots[k],
                    "applications"@,
                )
        }),
{
    let roots = (entries::own_root(data_home, home) + entries::shared_roots(data_dirs)).push(
        "/usr/share/omarchy"@,
    );
    let wanted = roots.map_values(|root: Seq<char>| entries::below(root, "applications"@));
    lemma_unique_are_given(wanted, i);
    let directory = entries::entry_directories(data_home, home, data_dirs)[i];
    let k = choose|k: int| 0 <= k < wanted.len() && wanted[k] == directory;
    assert(directory == entries::below(roots[k], "applications"@));
}

// ── Units ──────────────────────────────────────────────────────────────────

/// What the service manager reads between double quotes: a backslash lets the
/// next character stand for itself, and a doubled percent sign is one.
pub open spec fn unit_reads(s: Seq<char>) -> Seq<char>
    decreases s.len(),
{
    if s.len() == 0 {
        seq![]
    } else if s.len() >= 2 && (s[0] == '\\' || (s[0] == '%' && s[1] == '%')) {
        seq![s[1]] + unit_reads(s.skip(2))
    } else {
        seq![s[0]] + unit_reads(s.drop_first())
    }
}

proof fn lemma_escaped_front(path: Seq<char>)
    requires
        path.len() > 0,
    ensures
        autosave::all_escaped(path) == autosave::escaped(path[0]) + autosave::all_escaped(
            path.drop_first(),
        ),
    decreases path.len(),
{
    if path.len() == 1 {
        let none = Seq::<char>::empty();
        assert(path.drop_last() =~= none);
        assert(path.drop_first() =~= none);
        assert(autosave::all_escaped(none) =~= none);
        assert(none + autosave::escaped(path[0]) =~= autosave::escaped(path[0]) + none);
    } else {
        lemma_escaped_front(path.drop_last());
        assert(path.drop_last().drop_first() =~= path.drop_first().drop_last());
        assert(path.drop_first().last() == path.last());
        let middle = autosave::all_escaped(path.drop_last().drop_first());
        assert(autosave::escaped(path[0]) + middle + autosave::escaped(path.last())
            =~= autosave::escaped(path[0]) + (middle + autosave::escaped(path.last())));
    }
}

proof fn lemma_escaped_reads(path: Seq<char>)
    ensures
        unit_reads(autosave::all_escaped(path)) == path,
    decreases path.len(),
{
    if path.len() == 0 {
        assert(path =~= Seq::<char>::empty());
    } else {
        lemma_escaped_front(path);
        let rest = autosave::all_escaped(path.drop_first());
        let e = autosave::escaped(path[0]);
        let s = e + rest;
        lemma_escaped_reads(path.drop_first());
        if e.len() == 2 {
            assert(s[0] == e[0] && s[1] == e[1]);
            assert(s.skip(2) =~= rest);
        } else {
            assert(s[0] == path[0]);
            assert(s.drop_first() =~= rest);
        }
        assert(seq![path[0]] + path.drop_first() =~= path);
    }
}

/// The service runs the very program that it was installed for, whatever
/// characters its path holds, and asks it to save at once.
pub proof fn law_service_runs_the_program(binary: Seq<char>)
    ensures
        ({
            let start = "[Unit]\nDescription=Hyprloom autosave session\n\n[Service]\nType=oneshot\nExecStart=\""@;
            let end = "\" autosave --now\n"@;
            let unit = autosave::service_text(binary);
            let n = unit.len() as int;
            &&& n >= start.len() + end.len()
            &&& unit.take(start.len() as int) == start
            &&& unit.skip(n - end.len()) == end
            &&& unit_reads(unit.subrange(start.len() as int, n - end.len())) == binary
        }),
{
    let start = "[Unit]\nDescription=Hyprloom autosave session\n\n[Service]\nType=oneshot\nExecStart=\""@;
    let end = "\" autosave --now\n"@;
    reveal_strlit("[Unit]\nDescription=Hyprloom autosave session\n\n[Service]\nType=oneshot\nExecStart=\"");
    reveal_strlit("[Unit]\nDescription=Hyprloom autosave session\n\n[Service]\nType=oneshot\nExecStart=");
    reveal_strlit("\" autosave --now\n");
    reveal_strlit(" autosave --now\n");
    let unit = autosave::service_text(binary);
    let inner = autosave::all_escaped(binary);
    assert(unit =~= start + inner + end);
    let n = unit.len() as int;
    assert(unit.take(start.len() as int) =~= start);
    assert(unit.skip(n - end.len()) =~= end);
    assert(unit.subrange(start.len() as int, n - end.len()) =~= inner);
    lemma_escaped_reads(binary);
}

/// An uninstall removes exactly the units that are regular files, and nothing
/// at all where one of the four is something else.
pub proof fn law_only_regular_units_are_removed(units: UnitFiles)
    ensures
        ({
            let removed = autosave::removable(autosave::units_in_order(units));
            let strange = units.service is Other || units.timer is Other
                || units.legacy_service is Other || units.legacy_timer is Other;
            &&& strange ==> removed.len() == 0
            &&& !strange ==> {
                &&& removed.contains("hyprloom-autosave.service"@) <==> units.service is Regular
                &&& removed.contains("hyprloom-autosave.timer"@) <==> units.timer is Regular
                &&& removed.contains("hyprflow-autosave.service"@)
                    <==> units.legacy_service is Regular
                &&& removed.contains("hyprflow-autosave.timer"@) <==> units.legacy_timer is Regular
                &&& forall|i: int|
                    0 <= i < removed.len() ==> #[trigger] removed[i]
                        == "hyprloom-autosave.service"@ || removed[i] == "hyprloom-autosave.timer"@
                        || removed[i] == "hyprflow-autosave.service"@ || removed[i]
                        == "hyprflow-autosave.timer"@
            }
        }),
{
    reveal_strlit("hyprloom-autosave.service");
    reveal_strlit("hyprloom-autosave.timer");
    reveal_strlit("hyprflow-autosave.service");
    reveal_strlit("hyprflow-autosave.timer");
    assert("hyprloom-autosave.service"@[4] == 'l');
    assert("hyprflow-autosave.service"@[4] == 'f');
    assert("hyprloom-autosave.timer"@[4] == 'l');
    assert("hyprflow-autosave.timer"@[4] == 'f');
    let all = autosave::units_in_order(units);
    lemma_regular_units(all);
    lemma_first_other(all);
    let removed = autosave::removable(all);
    assert(all[0].1 == units.service && all[1].1 == units.timer);
    assert(all[2].1 == units.legacy_service && all[3].1 == units.legacy_timer);
    if autosave::first_other(all) is None {
        assert(removed == autosave::regular_units(all));
        assert forall|i: int| 0 <= i < removed.len() implies #[trigger] removed[i]
            == "hyprloom-autosave.service"@ || removed[i] == "hyprloom-autosave.timer"@
            || removed[i] == "hyprflow-autosave.service"@ || removed[i]
            == "hyprflow-autosave.timer"@ by {
            assert(removed.contains(removed[i]));
            lemma_regular_unit(all, removed[i]);
        }
        assert(all[0] == ("hyprloom-autosave.service"@, units.service));
        assert(all[1] == ("hyprloom-autosave.timer"@, units.timer));
        assert(all[2] == ("hyprflow-autosave.service"@, units.legacy_service));
        assert(all[3] == ("hyprflow-autosave.timer"@, units.legacy_timer));
        assert(all[0].0.len() == 25 && all[0].0[4] == 'l');
        assert(all[1].0.len() == 23 && all[1].0[4] == 'l');
        assert(all[2].0.len() == 25 && all[2].0[4] == 'f');
        assert(all[3].0.len() == 23 && all[3].0[4] == 'f');
        assert(all[0].0 != all[1].0 && all[0].0 != all[2].0 && all[0].0 != all[3].0);
        assert(all[1].0 != all[2].0 && all[1].0 != all[3].0 && all[2].0 != all[3].0);
        lemma_unit_is_regular(all, 0);
        lemma_unit_is_regular(all, 1);
        lemma_unit_is_regular(all, 2);
        lemma_unit_is_regular(all, 3);
    } else {
        let i = choose|i: int| 0 <= i < all.len() && (#[trigger] all[i]).1 is Other;
        assert(i == 0 || i == 1 || i == 2 || i == 3);
    }
}

proof fn lemma_regular_units(states: Seq<(Seq<char>, UnitState)>)
    ensures
        autosave::regular_units(states).len() <= states.len(),
    decreases states.len(),
{
    if states.len() > 0 {
        lemma_regular_units(states.drop_last());
    }
}

proof fn lemma_unit_is_regular(states: Seq<(Seq<char>, UnitState)>, k: int)
    requires
        0 <= k < states.len(),
        forall|i: int| 0 <= i < states.len() && i != k ==> (#[trigger] states[i]).0 != states[k].0,
    ensures
        autosave::regular_units(states).contains(states[k].0) <==> states[k].1 is Regular,
{
    lemma_regular_unit(states, states[k].0);
    if autosave::regular_units(states).contains(states[k].0) {
        let i = choose|i: int|
            0 <= i < states.len() && (#[trigger] states[i]).0 == states[k].0 && states[i].1
                is Regular;
        assert(i == k);
    }
}

proof fn lemma_regular_unit(states: Seq<(Seq<char>, UnitState)>, name: Seq<char>)
    ensures
        autosave::regular_units(states).contains(name) <==> exists|i: int|
            0 <= i < states.len() && (#[trigger] states[i]).0 == name && states[i].1 is Regular,
    decreases states.len(),
{
    if states.len() > 0 {
        let front = states.drop_last();
        let before = autosave::regular_units(front);
        let after = autosave::regular_units(states);
        let last = states.len() - 1;
        lemma_regular_unit(front, name);
        if after.contains(name) {
            let k = choose|k: int| 0 <= k < after.len() && after[k] == name;
            if k < before.len() {
                assert(before[k] == name);
                let i = choose|i: int|
                    0 <= i < front.len() && (#[trigger] front[i]).0 == name && front[i].1
                        is Regular;
                assert(states[i] == front[i]);
            } else {
                assert(states[last].0 == name);
            }
        }
        if exists|i: int|
            0 <= i < states.len() && (#[trigger] states[i]).0 == name && states[i].1 is Regular {
            let i = choose|i: int|
                0 <= i < states.len() && (#[trigger] states[i]).0 == name && states[i].1 is Regular;
            if i < last {
                assert(front[i] == states[i]);
                assert(before.contains(name));
                let k = choose|k: int| 0 <= k < before.len() && before[k] == name;
                assert(after[k] == name);
            } else {
                assert(after[before.len() as int] == name);
            }
        }
    } else {
        assert(autosave::regular_units(states).len() == 0);
    }
}

proof fn lemma_first_other(states: Seq<(Seq<char>, UnitState)>)
    ensures
        autosave::first_other(states) is Some <==> exists|i: int|
            0 <= i < states.len() && (#[trigger] states[i]).1 is Other,
    decreases states.len(),
{
    if states.len() > 0 {
        let front = states.drop_last();
        let last = states.len() - 1;
        lemma_first_other(front);
        if exists|i: int| 0 <= i < front.len() && (#[trigger] front[i]).1 is Other {
            let i = choose|i: int| 0 <= i < front.len() && (#[trigger] front[i]).1 is Other;
            assert(states[i] == front[i]);
        }
        if exists|i: int| 0 <= i < states.len() && (#[trigger] states[i]).1 is Other {
            let i = choose|i: int| 0 <= i < states.len() && (#[trigger] states[i]).1 is Other;
            if i < last {
                assert(front[i] == states[i]);
            }
        }
        assert(states[last] == states.last());
    }
}

// ── Names of sessions ──────────────────────────────────────────────────────

/// A user may give a session any name but an empty one, one that is hidden,
/// one with a slash in it, and one that looks like that of an automatic
/// session.
pub proof fn law_names_of_sessions(name: Seq<char>, front: Seq<char>, rest: Seq<char>)
    ensures
        !commands::is_user_name(seq![]),
        !commands::is_user_name(seq!['.'] + name),
        !commands::is_user_name(front + seq!['/'] + rest),
        !commands::is_user_name("autosave-"@ + name),
        name.len() > 0 && name[0] != '.' && texts::is_free_of(name, '/') && (name.len() < 9
            || name.take(9) != "autosave-"@) ==> commands::is_user_name(name),
{
    reveal_strlit("autosave-");
    let slashed = front + seq!['/'] + rest;
    assert(slashed[front.len() as int] == '/');
    assert(("autosave-"@ + name).take(9) =~= "autosave-"@);
}

} // verus!
