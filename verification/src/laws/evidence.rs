//! How much has to be known before a window is touched.

use crate::config::ConfigView;
use crate::laws::processes;
use crate::laws::recognition;
use crate::laws::sessions;
use crate::laws::texts;
use crate::restore::completion;
use crate::restore::completion::DesktopView;
use crate::restore::existing;
use crate::restore::identity;
use crate::restore::identity::{MatchKind, MatchPolicy, ObservedClientView};
use crate::restore::planning;
use crate::restore::planning::ReconcilePair;
use crate::restore::reconcile;
use crate::restore::reconcile::PassView;
use crate::restore::targets;
use crate::restore::windows;
use crate::session::{SessionClientView, SessionView};
use crate::text;
use vstd::prelude::*;

verus! {

// ── The same window ────────────────────────────────────────────────────────

/// A window shows a stable identifier.
pub open spec fn shows_id(window: ObservedClientView, id: Seq<char>) -> bool {
    window.client.stable_id == Some(id) && id.len() > 0
}

/// A window shows no stable identifier.
pub open spec fn shows_no_id(window: ObservedClientView) -> bool {
    window.client.stable_id is None || window.client.stable_id->0.len() == 0
}

/// Two sightings with stable identifiers are of one window exactly if the
/// identifiers agree up to case, whatever addresses and processes they tell.
pub proof fn law_stable_identifiers_decide(
    a: ObservedClientView,
    b: ObservedClientView,
    x: Seq<char>,
    y: Seq<char>,
)
    requires
        shows_id(a, x),
        shows_id(b, y),
    ensures
        windows::is_same_window(a, b) <==> text::same_ignoring_case(x, y),
        windows::is_same_taken(a, b) <==> text::same_ignoring_case(x, y),
{
}

/// Without stable identifiers two sightings are of one window only where both
/// the address and the process agree.  Known start times that differ speak
/// against it; while a start time is known at all, nothing but a stable
/// identifier proves that two sightings are of one window.
pub proof fn law_address_and_process_decide_without_identifiers(
    a: ObservedClientView,
    b: ObservedClientView,
)
    requires
        shows_no_id(a),
        shows_no_id(b),
    ensures
        a.client.address != b.client.address || a.client.pid != b.client.pid
            ==> !windows::is_same_window(a, b) && !windows::is_same_taken(a, b),
        a.client.address == b.client.address && a.client.pid == b.client.pid
            && a.process_start_time is None && b.process_start_time is None
            ==> windows::is_same_window(a, b) && windows::is_same_taken(a, b),
        a.process_start_time is Some || b.process_start_time is Some ==> !windows::is_same_window(
            a,
            b,
        ),
        a.client.address == b.client.address && a.client.pid == b.client.pid
            && a.process_start_time is Some && b.process_start_time is Some
            ==> (windows::is_same_taken(a, b) <==> a.process_start_time == b.process_start_time),
        a.client.address == b.client.address && a.client.pid == b.client.pid
            && a.process_start_time is Some && b.process_start_time is None
            ==> windows::is_same_taken(a, b),
{
}

// ── Opened again ───────────────────────────────────────────────────────────

proof fn lemma_some_relaunched(target: SessionClientView, current: Seq<ObservedClientView>, i: int)
    requires
        0 <= i < current.len(),
        identity::is_relaunched(target, current[i]),
    ensures
        planning::relaunch_count(target, current) >= 1,
    decreases current.len(),
{
    if i < current.len() - 1 {
        assert(current.drop_last()[i] == current[i]);
        lemma_some_relaunched(target, current.drop_last(), i);
    }
}

proof fn lemma_two_relaunched(
    target: SessionClientView,
    current: Seq<ObservedClientView>,
    i: int,
    j: int,
)
    requires
        0 <= i < j < current.len(),
        identity::is_relaunched(target, current[i]),
        identity::is_relaunched(target, current[j]),
    ensures
        planning::relaunch_count(target, current) >= 2,
    decreases current.len(),
{
    let front = current.drop_last();
    assert(front[i] == current[i]);
    if j < current.len() - 1 {
        assert(front[j] == current[j]);
        lemma_two_relaunched(target, front, i, j);
    } else {
        lemma_some_relaunched(target, front, i);
    }
}

proof fn lemma_none_relaunched(target: SessionClientView, current: Seq<ObservedClientView>)
    requires
        forall|k: int|
            0 <= k < current.len() ==> !identity::is_relaunched(target, #[trigger] current[k]),
    ensures
        planning::relaunch_count(target, current) == 0,
    decreases current.len(),
{
    if current.len() > 0 {
        let front = current.drop_last();
        assert forall|k: int| 0 <= k < front.len() implies !identity::is_relaunched(
            target,
            #[trigger] front[k],
        ) by {
            assert(front[k] == current[k]);
        }
        assert(!identity::is_relaunched(target, current[current.len() - 1]));
        lemma_none_relaunched(target, front);
    }
}

proof fn lemma_one_relaunched(target: SessionClientView, current: Seq<ObservedClientView>, i: int)
    requires
        0 <= i < current.len(),
        identity::is_relaunched(target, current[i]),
        forall|k: int|
            0 <= k < current.len() && k != i ==> !identity::is_relaunched(
                target,
                #[trigger] current[k],
            ),
    ensures
        planning::relaunch_count(target, current) == 1,
    decreases current.len(),
{
    let front = current.drop_last();
    let last = current.len() - 1;
    assert(current.last() == current[last]);
    assert forall|k: int| 0 <= k < front.len() && k != i implies !identity::is_relaunched(
        target,
        #[trigger] front[k],
    ) by {
        assert(front[k] == current[k]);
    }
    if i < last {
        assert(front[i] == current[i]);
        lemma_one_relaunched(target, front, i);
    } else {
        lemma_none_relaunched(target, front);
    }
}

/// Where two windows may both be the saved one opened again, neither is taken
/// for it.
pub proof fn law_two_reopened_windows_are_left_alone(
    target: SessionClientView,
    current: Seq<ObservedClientView>,
    i: int,
    j: int,
    strong: bool,
    allow_ambiguous: bool,
)
    requires
        0 <= i < current.len(),
        0 <= j < current.len(),
        i != j,
        recognition::has_moved(target, current[i]),
        recognition::has_moved(target, current[j]),
        identity::match_value(target, current[i], MatchPolicy::Normal) is Some,
        identity::match_value(target, current[j], MatchPolicy::Normal) is Some,
    ensures
        planning::candidate(target, current[i], current, MatchPolicy::Normal, strong) is None,
        planning::candidate(target, current[j], current, MatchPolicy::Normal, strong) is None,
        existing::offer(target, current[i], current, allow_ambiguous) is None,
{
    if i < j {
        lemma_two_relaunched(target, current, i, j);
    } else {
        lemma_two_relaunched(target, current, j, i);
    }
}

/// The only window of its application that may be the saved one opened again
/// is given to it: its class and title are the saved ones, its process runs
/// the saved executable, and it is neither taken nor protected nor ignored.
pub proof fn law_reopened_window_is_found(
    target: SessionClientView,
    open: Seq<ObservedClientView>,
    i: int,
    consumed: Seq<ObservedClientView>,
    protected: Set<Seq<char>>,
    settings: ConfigView,
    saved_directory: Seq<char>,
    running_directory: Seq<char>,
    name: Seq<char>,
    rest: Seq<char>,
)
    requires
        0 <= i < open.len(),
        recognition::is_ordinary(target),
        recognition::has_moved(target, open[i]),
        target.class.len() > 0,
        target.class == open[i].client.class,
        target.title.len() > 0,
        target.title == open[i].client.title,
        texts::is_directory_part(saved_directory),
        texts::is_directory_part(running_directory),
        texts::is_file_name(name),
        target.launch.command == saved_directory + name,
        texts::is_word(running_directory + name),
        processes::is_behind_program(rest),
        open[i].process_command == Some(running_directory + name + rest),
        forall|k: int|
            0 <= k < open.len() && k != i ==> {
                &&& !text::same_ignoring_case(target.class, (#[trigger] open[k]).client.class)
                &&& !text::same_ignoring_case(target.initial_class, open[k].client.initial_class)
            },
        forall|k: int|
            0 <= k < consumed.len() ==> !windows::is_same_taken(#[trigger] consumed[k], open[i]),
        !protected.contains(open[i].client.address),
        sessions::is_wanted(settings.ignore_classes, open[i].client),
    ensures
        existing::existing_match(target, open, consumed, protected, settings, true) == Some(i),
{
    recognition::law_reopened_window_is_known_by_its_program(
        target,
        open[i],
        saved_directory,
        running_directory,
        name,
        rest,
    );
    let available = existing::available_windows(open, consumed, protected, settings);
    assert(existing::is_available(open[i], consumed, protected, settings));
    let keep = |w: ObservedClientView| existing::is_available(w, consumed, protected, settings);
    assert(identity::is_relaunched(target, open[i]));
    assert forall|k: int| 0 <= k < open.len() && k != i implies !identity::is_relaunched(
        target,
        #[trigger] open[k],
    ) by {
        assert(!text::same_ignoring_case(target.class, open[k].client.class));
    }
    lemma_only_available(target, open, keep, i);
    assert(planning::relaunch_count(target, available) == 1);
    assert(existing::offer(target, open[i], available, true) is Some);
    assert(existing::offer_of(target, open, consumed, protected, settings, true, i) is Some);
    existing::law_existing_match_is_best(
        target,
        open,
        consumed,
        protected,
        settings,
        true,
        open.len() as int,
    );
    match existing::existing_match(target, open, consumed, protected, settings, true) {
        Some(k) => {
            if k != i {
                assert(!text::same_ignoring_case(target.class, open[k].client.class));
            }
        },
        None => {},
    }
}

proof fn lemma_only_available(
    target: SessionClientView,
    open: Seq<ObservedClientView>,
    keep: spec_fn(ObservedClientView) -> bool,
    i: int,
)
    requires
        0 <= i < open.len(),
        keep(open[i]),
        identity::is_relaunched(target, open[i]),
        forall|k: int|
            0 <= k < open.len() && k != i ==> !identity::is_relaunched(target, #[trigger] open[k]),
    ensures
        planning::relaunch_count(target, open.filter(keep)) == 1,
    decreases open.len(),
{
    reveal(Seq::filter);
    let front = open.drop_last();
    let last = open.len() - 1;
    let kept = front.filter(keep);
    assert(open.last() == open[last]);
    assert forall|k: int| 0 <= k < front.len() && k != i implies !identity::is_relaunched(
        target,
        #[trigger] front[k],
    ) by {
        assert(front[k] == open[k]);
    }
    if i < last {
        assert(front[i] == open[i]);
        lemma_only_available(target, front, keep, i);
        if keep(open[last]) {
            assert(open.filter(keep) =~= kept.push(open[last]));
            assert(kept.push(open[last]).drop_last() =~= kept);
        }
    } else {
        assert forall|k: int| 0 <= k < kept.len() implies !identity::is_relaunched(
            target,
            #[trigger] kept[k],
        ) by {
            front.lemma_filter_pred(keep, k);
            front.lemma_filter_contains_rev(keep, kept[k]);
            let j = choose|j: int| 0 <= j < front.len() && front[j] == kept[k];
            assert(front[j] == open[j]);
        }
        lemma_none_relaunched(target, kept);
        assert(open.filter(keep) =~= kept.push(open[last]));
        assert(kept.push(open[last]).drop_last() =~= kept);
    }
}

/// A window that is taken, protected or ignored is given to no target.
pub proof fn law_only_free_windows_are_given(
    target: SessionClientView,
    open: Seq<ObservedClientView>,
    consumed: Seq<ObservedClientView>,
    protected: Set<Seq<char>>,
    settings: ConfigView,
    allow_ambiguous: bool,
    i: int,
)
    requires
        existing::existing_match(target, open, consumed, protected, settings, allow_ambiguous)
            == Some(i),
    ensures
        0 <= i < open.len(),
        !protected.contains(open[i].client.address),
        sessions::is_wanted(settings.ignore_classes, open[i].client),
        forall|k: int|
            0 <= k < consumed.len() ==> !windows::is_same_taken(#[trigger] consumed[k], open[i]),
        identity::match_value(target, open[i], MatchPolicy::Normal) is Some,
{
    existing::law_existing_match_is_best(
        target,
        open,
        consumed,
        protected,
        settings,
        allow_ambiguous,
        open.len() as int,
    );
}

// ── Caution ────────────────────────────────────────────────────────────────

/// Where doubtful matches are allowed, every match is; where they are not, a
/// match is allowed unless nothing but the class speaks for it, or only the
/// initial title does while the title has become another one.
pub proof fn law_doubtful_matches_need_leave(
    target: SessionClientView,
    observed: ObservedClientView,
)
    ensures
        ({
            let value = identity::match_value(target, observed, MatchPolicy::Normal);
            let bold = windows::allowed_value(target, observed, true, MatchPolicy::Normal);
            let cautious = windows::allowed_value(target, observed, false, MatchPolicy::Normal);
            &&& bold == value
            &&& cautious is Some ==> cautious == value
            &&& value is Some && (value->0).1 == MatchKind::ClassFallback ==> cautious is None
            &&& value is Some && (value->0).1 != MatchKind::ClassFallback
                && target.profile_directory is Some ==> cautious is Some
            &&& value is Some && (value->0).1 != MatchKind::ClassFallback
                && identity::saved_directory(target) is Some ==> cautious is Some
            &&& value is Some && (value->0).1 != MatchKind::ClassFallback
                && text::same_ignoring_case(target.title, observed.client.title) ==> cautious
                is Some
            &&& value is Some && (value->0).1 != MatchKind::ClassFallback
                && !text::same_ignoring_case(target.initial_title, observed.client.initial_title)
                ==> cautious is Some
            &&& value is Some && (value->0).1 != MatchKind::ClassFallback && (
            target.initial_title.len() == 0 || target.title.len() == 0
                || observed.client.title.len() == 0) ==> cautious is Some
            &&& value is Some && (value->0).1 != MatchKind::ClassFallback && identity::similar(
                target.title,
                observed.client.title,
            ) ==> cautious is Some
            &&& target.profile_directory is None && target.launch.args.len() == 0
                && target.initial_title.len() > 0 && target.initial_title
                == observed.client.initial_title && target.title.len() > 0
                && observed.client.title.len() > 0 && !text::same_ignoring_case(
                target.title,
                observed.client.title,
            ) && !identity::similar(target.title, observed.client.title) ==> cautious is None
        }),
{
}

/// A window of which only the class is known is matched for that alone where
/// nothing was saved that could tell better, and only where that is allowed.
pub proof fn law_class_alone_is_doubtful(
    target: SessionClientView,
    observed: ObservedClientView,
)
    requires
        recognition::is_ordinary(target),
        target.address is None,
        target.class.len() > 0,
        target.class == observed.client.class,
        target.initial_class.len() == 0,
        target.title.len() == 0,
        target.initial_title.len() == 0,
        target.launch.args.len() == 0,
    ensures
        identity::match_value(target, observed, MatchPolicy::Normal) == Some(
            (recognition::score(target, observed), MatchKind::ClassFallback),
        ),
        windows::allowed_value(target, observed, true, MatchPolicy::Normal) is Some,
        windows::allowed_value(target, observed, false, MatchPolicy::Normal) is None,
{
}

// ── Completed replacements ─────────────────────────────────────────────────

/// A replacement counts as completed by a window at the saved address only
/// where its stable identifier is the saved one.  An ordinary window elsewhere
/// needs its directory, its program and its title together.
pub proof fn law_completion_needs_sure_evidence(
    target: SessionClientView,
    observed: ObservedClientView,
    allow_ambiguous: bool,
)
    requires
        recognition::is_ordinary(target),
    ensures
        ({
            let value = windows::allowed_value(
                target,
                observed,
                allow_ambiguous,
                MatchPolicy::ReplacementCompletion,
            );
            &&& recognition::is_at_home(target, observed) && (target.stable_id is None
                || observed.client.stable_id is None || !text::same_ignoring_case(
                target.stable_id->0,
                observed.client.stable_id->0,
            )) ==> value is None
            &&& target.address is None ==> value is None
            &&& recognition::has_moved(target, observed) && observed.process_command is None ==> value
                is None
            &&& recognition::has_moved(target, observed) && observed.cwd is None ==> value is None
            &&& recognition::has_moved(target, observed) && target.launch.args.len() == 0 ==> value
                is None
        }),
{
}

/// An ordinary window elsewhere completes a replacement where its class, its
/// title, its directory and its program are all the saved ones.
pub proof fn law_full_evidence_completes(
    target: SessionClientView,
    observed: ObservedClientView,
    directory: Seq<char>,
    saved_directory: Seq<char>,
    running_directory: Seq<char>,
    name: Seq<char>,
    rest: Seq<char>,
)
    requires
        recognition::is_ordinary(target),
        recognition::has_moved(target, observed),
        target.class.len() > 0,
        target.class == observed.client.class,
        target.title.len() > 0,
        target.title == observed.client.title,
        directory.len() > 0,
        recognition::opens_in(target.launch, directory),
        observed.cwd == Some(directory),
        texts::is_directory_part(saved_directory),
        texts::is_directory_part(running_directory),
        texts::is_file_name(name),
        target.launch.command == saved_directory + name,
        texts::is_word(running_directory + name),
        processes::is_behind_program(rest),
        observed.process_command == Some(running_directory + name + rest),
    ensures
        windows::allowed_value(
            target,
            observed,
            false,
            MatchPolicy::ReplacementCompletion,
        ) is Some,
{
    recognition::law_reopened_window_is_known_by_its_program(
        target,
        observed,
        saved_directory,
        running_directory,
        name,
        rest,
    );
    recognition::law_reopened_window_is_known_by_its_directory(target, observed, directory);
    recognition::lemma_opens_in(target, directory);
    texts::law_same_paths(directory, seq![]);
    processes::law_program_of_a_command_line(running_directory, name, rest);
    texts::law_last_name_of_a_path(saved_directory, name);
    assert(windows::completes(target, observed));
}

/// An open window that shares its class and both titles with one of a safety
/// snapshot cannot be told from it; one of another application can.
pub proof fn law_snapshot_windows_are_recognized(
    saved: SessionClientView,
    observed: ObservedClientView,
)
    ensures
        saved.class.len() > 0 && saved.class == observed.client.class && saved.title.len() > 0
            && saved.title == observed.client.title && saved.initial_title
            == observed.client.initial_title ==> windows::resembles(saved, observed),
        !text::same_ignoring_case(saved.class, observed.client.class) && !text::same_ignoring_case(
            saved.initial_class,
            observed.client.initial_class,
        ) ==> !windows::resembles(saved, observed),
        saved.stable_id is None && saved.pid is None && !text::same_ignoring_case(
            saved.title,
            observed.client.title,
        ) && !text::same_ignoring_case(saved.initial_title, observed.client.initial_title)
            ==> !windows::resembles(saved, observed),
        saved.class.len() > 0 && saved.class == observed.client.class && saved.stable_id is Some
            && saved.stable_id->0.len() > 0 && saved.stable_id == observed.client.stable_id
            && recognition::is_at_home(saved, observed) ==> windows::resembles(saved, observed),
{
}

// ── Chromium ───────────────────────────────────────────────────────────────

proof fn lemma_no_chromium(target: SessionClientView, open: Seq<ObservedClientView>)
    requires
        forall|k: int|
            0 <= k < open.len() ==> !text::same_ignoring_case(
                target.address->0,
                (#[trigger] open[k]).client.address,
            ),
    ensures
        windows::chromium_count(target, open) == 0,
    decreases open.len(),
{
    if open.len() > 0 {
        let front = open.drop_last();
        assert forall|k: int| 0 <= k < front.len() implies !text::same_ignoring_case(
            target.address->0,
            (#[trigger] front[k]).client.address,
        ) by {
            assert(front[k] == open[k]);
        }
        assert(open.last() == open[open.len() - 1]);
        lemma_no_chromium(target, front);
    }
}

proof fn lemma_one_chromium(target: SessionClientView, open: Seq<ObservedClientView>, i: int)
    requires
        0 <= i < open.len(),
        target.address == Some(open[i].client.address),
        open[i].client.address.len() > 0,
        target.class.len() > 0,
        target.class == open[i].client.class,
        forall|k: int|
            0 <= k < open.len() && k != i ==> !text::same_ignoring_case(
                target.address->0,
                (#[trigger] open[k]).client.address,
            ),
    ensures
        windows::chromium_count(target, open) == 1,
    decreases open.len(),
{
    let front = open.drop_last();
    let last = open.len() - 1;
    assert(open.last() == open[last]);
    assert forall|k: int| 0 <= k < front.len() && k != i implies !text::same_ignoring_case(
        target.address->0,
        (#[trigger] front[k]).client.address,
    ) by {
        assert(front[k] == open[k]);
    }
    if i < last {
        assert(front[i] == open[i]);
        lemma_one_chromium(target, front, i);
    } else {
        lemma_no_chromium(target, front);
    }
}

/// A Chromium window is matched only at the one address where it was saved:
/// where a single open window stands there, it is that one and no other.
pub proof fn law_chromium_is_matched_at_its_only_address(
    target: SessionClientView,
    open: Seq<ObservedClientView>,
    i: int,
    other: Seq<char>,
)
    requires
        target.class == "chromium"@,
        target.initial_class == "chromium"@,
        0 <= i < open.len(),
        target.address == Some(open[i].client.address),
        open[i].client.address.len() > 0,
        target.class == open[i].client.class,
        forall|k: int|
            0 <= k < open.len() && k != i ==> !text::same_ignoring_case(
                target.address->0,
                (#[trigger] open[k]).client.address,
            ),
    ensures
        windows::chromium_is_safe(target, open[i].client.address, open),
        other != open[i].client.address ==> !windows::chromium_is_safe(target, other, open),
{
    reveal_strlit("chromium");
    reveal_strlit("chrome-");
    assert("chromium"@.take(7)[5] == 'i');
    assert(text::lowered("chromium"@.take(7))[5] == 'i');
    assert(text::lowered("chrome-"@)[5] == 'e');
    lemma_one_chromium(target, open, i);
    assert(identity::is_same_chromium(target, open[i].client));
    assert(identity::classes_agree(target, open[i].client));
}

// ── Kept for others ────────────────────────────────────────────────────────

/// A window that is planned for a later target is kept for it: the target at
/// hand must leave its address alone, unless that very window is planned for
/// it as well.
pub proof fn law_planned_windows_are_kept(
    plan: Seq<Option<ReconcilePair>>,
    planned: Seq<ObservedClientView>,
    current: Seq<ObservedClientView>,
    targets: Seq<SessionClientView>,
    t: int,
    k: int,
    c: int,
)
    requires
        0 <= t < k < plan.len(),
        plan[k] is Some,
        plan[k]->0.current_index < planned.len(),
        0 <= c < current.len(),
        windows::is_same_taken(planned[plan[k]->0.current_index as int], current[c]),
        plan[t] is None || plan[t]->0.current_index >= planned.len() || !windows::is_same_taken(
            planned[plan[t]->0.current_index as int],
            current[c],
        ),
    ensures
        existing::reserved_addresses(t, plan, planned, current, targets).contains(
            current[c].client.address,
        ),
{
    assert(existing::is_kept_for(plan[k]->0, planned, targets, current[c]));
    assert(existing::is_kept_after(t, plan, planned, targets, current[c]));
    assert(existing::is_reserved(t, plan, planned, current, targets, current[c].client.address));
}

/// The window that is planned for a target is the one that it gets, as long as
/// it is still there, free, and may be matched, whatever else is open.
pub proof fn law_planned_window_is_chosen(pass: PassView, i: int)
    requires
        0 <= pass.index < pass.plan.len(),
        pass.plan[pass.index] is Some,
        pass.plan[pass.index]->0.current_index < pass.planned.len(),
        !pass.options.dry_run,
        0 <= i < pass.latest.len(),
        ({
            let planned = pass.planned[pass.plan[pass.index]->0.current_index as int];
            let fits = |k: int|
                windows::is_same_taken(planned, pass.latest[k]) && !windows::is_taken(
                    pass.used,
                    pass.latest[k],
                ) && !reconcile::excluded(pass).contains(pass.latest[k].client.address)
                    && windows::allowed_value(
                    pass.targets[pass.index].client,
                    pass.latest[k],
                    pass.options.allow_ambiguous_identity,
                    MatchPolicy::Normal,
                ) is Some;
            fits(i) && forall|k: int| 0 <= k < i ==> !#[trigger] fits(k)
        }),
    ensures
        reconcile::chosen_place(pass) == Some(i),
{
    let planned = pass.planned[pass.plan[pass.index]->0.current_index as int];
    lemma_planned(pass, planned, 0, i);
}

proof fn lemma_planned(pass: PassView, planned: ObservedClientView, from: int, i: int)
    requires
        0 <= from <= i < pass.latest.len(),
        ({
            let fits = |k: int|
                windows::is_same_taken(planned, pass.latest[k]) && !windows::is_taken(
                    pass.used,
                    pass.latest[k],
                ) && !reconcile::excluded(pass).contains(pass.latest[k].client.address)
                    && windows::allowed_value(
                    pass.targets[pass.index].client,
                    pass.latest[k],
                    pass.options.allow_ambiguous_identity,
                    MatchPolicy::Normal,
                ) is Some;
            fits(i) && forall|k: int| from <= k < i ==> !#[trigger] fits(k)
        }),
    ensures
        reconcile::planned_from(pass, planned, reconcile::excluded(pass), from) == Some(i),
    decreases i - from,
{
    let fits = |k: int|
        windows::is_same_taken(planned, pass.latest[k]) && !windows::is_taken(
            pass.used,
            pass.latest[k],
        ) && !reconcile::excluded(pass).contains(pass.latest[k].client.address)
            && windows::allowed_value(
            pass.targets[pass.index].client,
            pass.latest[k],
            pass.options.allow_ambiguous_identity,
            MatchPolicy::Normal,
        ) is Some;
    if from < i {
        assert(!fits(from));
        lemma_planned(pass, planned, from + 1, i);
    }
}

// ── Unproven windows ───────────────────────────────────────────────────────

/// The window at the saved address may still be the saved one where a proof is
/// missing: a stable identifier or a process was saved, and nothing that is
/// known on both sides differs.  Where something differs, or both identifiers
/// are known, or nothing was saved, there is no such doubt.
pub proof fn law_missing_proof_leaves_doubt(
    target: SessionClientView,
    observed: ObservedClientView,
)
    requires
        recognition::is_at_home(target, observed),
    ensures
        ({
            let doubt = existing::is_unavailable(target, observed);
            let now = observed.client;
            let saved_id = target.stable_id is Some && target.stable_id->0.len() > 0;
            let now_id = now.stable_id is Some && now.stable_id->0.len() > 0;
            &&& saved_id && now_id ==> !doubt
            &&& target.pid is Some && target.pid->0 != now.pid ==> !doubt
            &&& target.process_start_time is Some && observed.process_start_time is Some
                && target.process_start_time != observed.process_start_time ==> !doubt
            &&& saved_id && !now_id && target.pid is None && target.process_start_time is None
                && target.profile_directory is None ==> doubt
            &&& !saved_id && now_id && target.pid is None && target.process_start_time is None
                && target.profile_directory is None ==> doubt
            &&& !saved_id && !now_id && target.pid == Some(now.pid) && target.process_start_time
                is None && target.profile_directory is None ==> doubt
            &&& !saved_id && !now_id && recognition::is_unidentified(target)
                && observed.process_start_time is None && target.profile_directory is None
                ==> !doubt
        }),
{
}

/// Away from the saved address there is no such doubt.
pub proof fn law_no_doubt_elsewhere(target: SessionClientView, observed: ObservedClientView)
    requires
        recognition::has_moved(target, observed) || target.address is None,
    ensures
        !existing::is_unavailable(target, observed),
{
}

// ── Completed replacements, all in all ─────────────────────────────────────

/// A replacement is complete only where no window stands at an address of the
/// snapshot any more, every window of the session counts and is identified,
/// none of the open windows resembles one of the snapshot, and every target
/// was given a window.
pub proof fn law_completed_replacements_left_nothing(
    session: SessionView,
    safety: Seq<SessionClientView>,
    settings: ConfigView,
    entries: Seq<Seq<char>>,
    desktop: DesktopView,
    i: int,
    j: int,
)
    requires
        completion::is_completed(session, Some(safety), settings, entries, desktop),
        targets::reconcile_targets(session, settings, entries).len() > 0,
    ensures
        0 <= i < safety.len() ==> safety[i].address is Some,
        0 <= i < desktop.old.len() && 0 <= j < safety.len() && desktop.old[i].address.len() > 0
            ==> safety[j].address != Some(desktop.old[i].address),
        0 <= i < session.clients.len() ==> sessions::is_unlisted(
            settings.ignore_classes,
            session.clients[i].class,
        ) && sessions::is_unlisted(settings.ignore_classes, session.clients[i].initial_class),
        0 <= i < desktop.observed.len() && 0 <= j < safety.len() ==> !windows::resembles(
            safety[j],
            desktop.observed[i],
        ),
        0 <= i < desktop.plan.len() ==> desktop.plan[i] is Some,
{
    if 0 <= i < safety.len() {
        lemma_addressed(safety, 0, i);
    }
    if 0 <= i < desktop.old.len() && 0 <= j < safety.len() && desktop.old[i].address.len() > 0 {
        if safety[j].address == Some(desktop.old[i].address) {
            assert(completion::is_at(desktop.old[i], safety[j]));
            assert(completion::stands_at_saved(safety, desktop.old));
        }
    }
    if 0 <= i < session.clients.len() {
        assert(windows::is_wanted(settings, session.clients[i]));
    }
    if 0 <= i < desktop.observed.len() && 0 <= j < safety.len() {
        if windows::resembles(safety[j], desktop.observed[i]) {
            assert(completion::some_resemble(safety, desktop.observed));
        }
    }
}

proof fn lemma_addressed(clients: Seq<SessionClientView>, from: int, i: int)
    requires
        0 <= from <= i < clients.len(),
        targets::lacking_address_from(clients, from) is None,
    ensures
        clients[i].address is Some,
    decreases i - from,
{
    if from < i {
        lemma_addressed(clients, from + 1, i);
    }
}

// ── Equal windows ──────────────────────────────────────────────────────────

/// Among windows that are worth the same to a target, the one with the first
/// address is given.
pub proof fn law_first_address_is_given(
    target: SessionClientView,
    open: Seq<ObservedClientView>,
    consumed: Seq<ObservedClientView>,
    protected: Set<Seq<char>>,
    settings: ConfigView,
    allow_ambiguous: bool,
    n: int,
    k: int,
)
    requires
        0 <= k < n <= open.len(),
    ensures
        ({
            let worth = |j: int|
                existing::offer_of(
                    target,
                    open,
                    consumed,
                    protected,
                    settings,
                    allow_ambiguous,
                    j,
                );
            match existing::best_window(
                target,
                open,
                consumed,
                protected,
                settings,
                allow_ambiguous,
                n,
            ) {
                Some(i) => worth(k) == worth(i) ==> !text::comes_before(
                    open[k].client.address,
                    open[i].client.address,
                ),
                None => true,
            }
        }),
    decreases n,
{
    existing::law_existing_match_is_best(
        target,
        open,
        consumed,
        protected,
        settings,
        allow_ambiguous,
        n - 1,
    );
    let before = existing::best_window(
        target,
        open,
        consumed,
        protected,
        settings,
        allow_ambiguous,
        n - 1,
    );
    let after = existing::best_window(
        target,
        open,
        consumed,
        protected,
        settings,
        allow_ambiguous,
        n,
    );
    if k < n - 1 {
        law_first_address_is_given(
            target,
            open,
            consumed,
            protected,
            settings,
            allow_ambiguous,
            n - 1,
            k,
        );
    }
    if before is Some && after is Some {
        let (i, j) = (before->0, after->0);
        let (x, y, z) = (
            open[k].client.address,
            open[i].client.address,
            open[n - 1].client.address,
        );
        text::lemma_comes_before_total(x, y);
        text::lemma_comes_before_total(y, z);
        text::lemma_comes_before_total(x, z);
        if text::comes_before(x, z) && text::comes_before(z, y) {
            text::lemma_comes_before_transitive(x, z, y);
        }
    }
    text::lemma_comes_before_total(open[k].client.address, open[k].client.address);
}

/// A replacement is complete where nothing is left of the snapshot, the
/// session is told completely, and every one of its targets was given a
/// window.
pub proof fn law_replacements_are_completed(
    session: SessionView,
    settings: ConfigView,
    entries: Seq<Seq<char>>,
    desktop: DesktopView,
)
    requires
        forall|i: int|
            0 <= i < session.clients.len() ==> sessions::is_unlisted(
                settings.ignore_classes,
                (#[trigger] session.clients[i]).class,
            ) && sessions::is_unlisted(
                settings.ignore_classes,
                session.clients[i].initial_class,
            ),
        targets::lacking_profile_from(session.clients, 0) is None,
        0 < targets::reconcile_targets(session, settings, entries).len() <= 512,
        desktop.observed.len() <= 512,
        forall|t: int| 0 <= t < desktop.plan.len() ==> (#[trigger] desktop.plan[t]) is Some,
    ensures
        completion::is_completed(session, None, settings, entries, desktop),
{
    assert forall|i: int| 0 <= i < session.clients.len() implies windows::is_wanted(
        settings,
        #[trigger] session.clients[i],
    ) by {
        assert(sessions::is_unlisted(settings.ignore_classes, session.clients[i].class));
    }
}

/// A process is the saved one where its number and its start time are, another
/// one where either differs, and in doubt where a start time is missing.
pub proof fn law_processes_are_told_apart(
    target: SessionClientView,
    observed: ObservedClientView,
)
    ensures
        target.pid is None ==> identity::process_identity(target, observed) is None,
        target.pid is Some && target.pid->0 != observed.client.pid ==> identity::process_identity(
            target,
            observed,
        ) == Some(false),
        target.pid == Some(observed.client.pid) && target.process_start_time is Some
            && observed.process_start_time is Some ==> identity::process_identity(target, observed)
            == Some(target.process_start_time == observed.process_start_time),
        target.pid == Some(observed.client.pid) && (target.process_start_time is None
            || observed.process_start_time is None) ==> identity::process_identity(
            target,
            observed,
        ) is None,
{
}

/// A web application elsewhere completes a replacement by its class, since
/// that tells the application and the profile; so does a Brave window by its
/// profile, and a Chromium window never does.
pub proof fn law_browsers_complete_by_class_or_profile(
    target: SessionClientView,
    observed: ObservedClientView,
    profile: Seq<char>,
)
    requires
        recognition::has_moved(target, observed),
        target.class.len() > 0,
        target.class == observed.client.class,
        target.initial_class == target.class,
    ensures
        text::starts_with_ignoring_case(target.class, "chrome-"@) && !text::same_ignoring_case(
            target.class,
            "brave-browser"@,
        ) ==> windows::completes(target, observed),
        target.class == "brave-browser"@ && profile.len() > 0 && target.profile_directory == Some(
            profile,
        ) && observed.profile_directory == Some(profile) && !target.profile_identity_ambiguous
            && !observed.profile_identity_ambiguous ==> windows::completes(target, observed),
        target.class == "brave-browser"@ && (target.profile_directory is None
            || observed.profile_directory is None) ==> !windows::completes(target, observed),
        target.class == "chromium"@ ==> !windows::completes(target, observed),
{
    reveal_strlit("chromium");
    reveal_strlit("chrome-");
    reveal_strlit("brave-browser");
    assert("chromium"@.take(7)[5] == 'i');
    assert(text::lowered("chromium"@.take(7))[5] == 'i');
    assert(text::lowered("chrome-"@)[5] == 'e');
    assert(text::lowered("brave-browser"@).len() == 13);
    assert(text::lowered("chromium"@).len() == 8);
}

/// A window that may be a later target opened again is kept for it too.
pub proof fn law_reopened_windows_are_kept(
    plan: Seq<Option<ReconcilePair>>,
    planned: Seq<ObservedClientView>,
    current: Seq<ObservedClientView>,
    targets: Seq<SessionClientView>,
    t: int,
    k: int,
    c: int,
)
    requires
        0 <= t < k < plan.len(),
        plan[k] is Some,
        plan[k]->0.current_index < planned.len(),
        plan[k]->0.target_index < targets.len(),
        plan[t] is None,
        0 <= c < current.len(),
        ({
            let later = targets[plan[k]->0.target_index as int];
            &&& recognition::has_moved(later, current[c])
            &&& identity::match_value(later, current[c], MatchPolicy::Normal) is Some
        }),
    ensures
        existing::reserved_addresses(t, plan, planned, current, targets).contains(
            current[c].client.address,
        ),
{
    let later = targets[plan[k]->0.target_index as int];
    assert(identity::is_relaunched(later, current[c]));
    assert(existing::is_kept_for(plan[k]->0, planned, targets, current[c]));
    assert(existing::is_kept_after(t, plan, planned, targets, current[c]));
    assert(existing::is_reserved(t, plan, planned, current, targets, current[c].client.address));
}

/// What is kept for later targets is excluded from the target at hand.
pub proof fn law_kept_windows_are_excluded(pass: PassView, address: Seq<char>)
    requires
        existing::reserved_addresses(
            pass.index,
            pass.plan,
            pass.planned,
            pass.latest,
            reconcile::clients_of(pass.targets),
        ).contains(address),
    ensures
        reconcile::excluded(pass).contains(address),
{
}

/// A plan that has to be sure takes no match for which only the class speaks;
/// one that need not be takes every match that is unambiguous.
pub proof fn law_sure_plans_take_no_doubtful_match(
    target: SessionClientView,
    observed: ObservedClientView,
    current: Seq<ObservedClientView>,
)
    requires
        recognition::is_ordinary(target),
        target.address is None,
    ensures
        ({
            let value = identity::match_value(target, observed, MatchPolicy::Normal);
            let sure = planning::candidate(target, observed, current, MatchPolicy::Normal, true);
            let any = planning::candidate(target, observed, current, MatchPolicy::Normal, false);
            &&& any == value
            &&& value is Some && (value->0).1 == MatchKind::ClassFallback ==> sure is None
            &&& sure is Some ==> sure == value
            &&& value is Some && target.title.len() > 0 && text::same_ignoring_case(
                target.title,
                observed.client.title,
            ) ==> sure == value
        }),
{
    assert(text::lowered(target.title).len() == target.title.len());
    assert(text::lowered(observed.client.title).len() == observed.client.title.len());
}

/// A window that shares its class, its initial title and its directory with
/// one of a snapshot cannot be told from it either.
pub proof fn law_snapshot_windows_are_recognized_by_directory(
    saved: SessionClientView,
    observed: ObservedClientView,
    directory: Seq<char>,
)
    requires
        saved.class.len() > 0,
        saved.class == observed.client.class,
        saved.initial_title.len() > 0,
        saved.initial_title == observed.client.initial_title,
        directory.len() > 0,
        recognition::opens_in(saved.launch, directory),
        observed.cwd == Some(directory),
    ensures
        windows::resembles(saved, observed),
{
    recognition::lemma_opens_in(saved, directory);
    texts::law_same_paths(directory, seq![]);
}

} // verus!
