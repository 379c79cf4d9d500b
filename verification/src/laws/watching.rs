//! The window of a launch is found, and no other is taken for it.

use crate::config;
use crate::config::ConfigView;
use crate::hyprctl::HyprClientView;
use crate::laws::recognition;
use crate::lists;
use crate::lists::Ordered;
use crate::restore::identity;
use crate::restore::identity::MatchPolicy;
use crate::restore::launched;
use crate::restore::launched::{CandidateView, Scored, ScoredView, WatchOutcome, WatchView};
use crate::restore::report::{LaunchedProcess, RestoreErrorView};
use crate::session::SessionClientView;
use crate::text;
use vstd::prelude::*;

verus! {

// ── Waiting ────────────────────────────────────────────────────────────────

/// A launch is waited for, and rested after, as long as the settings say
/// within their limits.
pub proof fn law_waiting_times_are_those_of_the_settings(settings: ConfigView)
    ensures
        launched::timeout_of(settings) == config::normalized(
            settings.general,
        ).window_detect_timeout_ms,
        launched::delay_of(settings) == config::normalized(settings.general).restore_delay_ms,
{
}

proof fn lemma_only_one<A>(s: Seq<A>, keep: spec_fn(A) -> bool, i: int)
    requires
        0 <= i < s.len(),
        keep(s[i]),
        forall|k: int| 0 <= k < s.len() && k != i ==> !keep(#[trigger] s[k]),
    ensures
        s.filter(keep) == seq![s[i]],
    decreases s.len(),
{
    reveal(Seq::filter);
    let front = s.drop_last();
    let last = s.len() - 1;
    assert(s.last() == s[last]);
    assert forall|k: int| 0 <= k < front.len() && k != i implies !keep(#[trigger] front[k]) by {
        assert(front[k] == s[k]);
    }
    if i < last {
        assert(front[i] == s[i]);
        lemma_only_one(front, keep, i);
    } else {
        lemma_none(front, keep);
        assert(s.filter(keep) =~= seq![s[i]]);
    }
}

proof fn lemma_none<A>(s: Seq<A>, keep: spec_fn(A) -> bool)
    requires
        forall|k: int| 0 <= k < s.len() ==> !keep(#[trigger] s[k]),
    ensures
        s.filter(keep) == Seq::<A>::empty(),
    decreases s.len(),
{
    reveal(Seq::filter);
    if s.len() > 0 {
        let front = s.drop_last();
        assert forall|k: int| 0 <= k < front.len() implies !keep(#[trigger] front[k]) by {
            assert(front[k] == s[k]);
        }
        assert(!keep(s[s.len() - 1]));
        lemma_none(front, keep);
    }
}

/// A window of another application.
pub open spec fn is_of_another_application(
    target: SessionClientView,
    client: HyprClientView,
) -> bool {
    &&& !text::same_ignoring_case(target.class, client.class)
    &&& !text::same_ignoring_case(target.initial_class, client.initial_class)
}

/// A window that a launched process opened is found at once, where every other
/// window is of another application.
pub proof fn law_window_of_the_launched_process_is_found(
    watch: WatchView,
    now: u64,
    active: Option<Seq<char>>,
    shown: Seq<CandidateView>,
    i: int,
)
    requires
        recognition::is_ordinary(watch.target),
        watch.launched.pid is Some,
        0 <= i < shown.len(),
        shown[i].related,
        watch.target.class.len() > 0,
        shown[i].client.class == watch.target.class,
        forall|k: int|
            0 <= k < shown.len() && k != i ==> is_of_another_application(
                watch.target,
                (#[trigger] shown[k]).client,
            ),
    ensures
        launched::watch_step(watch, now, active, shown).1 == WatchOutcome::Found(shown[i].client),
{
    let keep = |c: CandidateView| launched::is_candidate(watch, active, c);
    assert forall|k: int| 0 <= k < shown.len() && k != i implies !keep(#[trigger] shown[k]) by {
        assert(is_of_another_application(watch.target, shown[k].client));
    }
    lemma_only_one(shown, keep, i);
    let candidates = launched::candidates_among(watch, active, shown);
    assert(candidates == seq![shown[i]]);
    assert(candidates[0].related);
    let fits = |c: CandidateView| launched::fits_profile(watch.target, c.discovery);
    lemma_only_one(candidates, fits, 0);
    let related = |c: CandidateView| c.related;
    lemma_only_one(candidates, related, 0);
}

/// Where no window can be that of the launch, it is waited on, and the time
/// for which one was seen starts anew.
pub proof fn law_launch_is_waited_for(
    watch: WatchView,
    now: u64,
    active: Option<Seq<char>>,
    shown: Seq<CandidateView>,
)
    requires
        forall|k: int|
            0 <= k < shown.len() ==> is_of_another_application(
                watch.target,
                (#[trigger] shown[k]).client,
            ),
    ensures
        launched::watch_step(watch, now, active, shown).1 == WatchOutcome::Wait,
        launched::watch_step(watch, now, active, shown).0.seen_since is None,
{
    let keep = |c: CandidateView| launched::is_candidate(watch, active, c);
    assert forall|k: int| 0 <= k < shown.len() implies !keep(#[trigger] shown[k]) by {
        assert(is_of_another_application(watch.target, shown[k].client));
    }
    lemma_none(shown, keep);
}

/// Where the launched process is known, a window of another process is never
/// taken for that of an ordinary application, however long it stands there.
pub proof fn law_foreign_windows_are_not_taken(
    watch: WatchView,
    now: u64,
    active: Option<Seq<char>>,
    shown: Seq<CandidateView>,
)
    requires
        recognition::is_ordinary(watch.target),
        watch.launched.pid is Some,
        forall|k: int| 0 <= k < shown.len() ==> !(#[trigger] shown[k]).related,
    ensures
        launched::watch_step(watch, now, active, shown).1 == WatchOutcome::Wait,
{
    let candidates = launched::candidates_among(watch, active, shown);
    let keep = |c: CandidateView| launched::is_candidate(watch, active, c);
    assert forall|k: int| 0 <= k < candidates.len() implies !(#[trigger] candidates[k]).related by {
        shown.lemma_filter_pred(keep, k);
        shown.lemma_filter_contains_rev(keep, candidates[k]);
        let j = choose|j: int| 0 <= j < shown.len() && shown[j] == candidates[k];
        assert(!shown[j].related);
    }
}

/// Where the launched process is not known, the one new window of the
/// application is taken once it has been seen for a quarter of a second.
pub proof fn law_only_new_window_is_taken_after_a_while(
    watch: WatchView,
    now: u64,
    since: u64,
    active: Option<Seq<char>>,
    shown: Seq<CandidateView>,
    i: int,
)
    requires
        recognition::is_ordinary(watch.target),
        watch.launched.pid is None,
        0 <= i < shown.len(),
        !shown[i].related,
        !watch.before.contains(shown[i].client.address),
        watch.target.class.len() > 0,
        shown[i].client.class == watch.target.class,
        forall|k: int|
            0 <= k < shown.len() && k != i ==> is_of_another_application(
                watch.target,
                (#[trigger] shown[k]).client,
            ),
        watch.seen_since == Some(since),
    ensures
        ({
            let outcome = launched::watch_step(watch, now, active, shown).1;
            &&& now - since >= 250 ==> outcome == WatchOutcome::Found(shown[i].client)
            &&& now - since < 250 ==> outcome == WatchOutcome::Wait
        }),
{
    let keep = |c: CandidateView| launched::is_candidate(watch, active, c);
    assert forall|k: int| 0 <= k < shown.len() && k != i implies !keep(#[trigger] shown[k]) by {
        assert(is_of_another_application(watch.target, shown[k].client));
    }
    lemma_only_one(shown, keep, i);
    let candidates = launched::candidates_among(watch, active, shown);
    assert(candidates == seq![shown[i]]);
    let fits = |c: CandidateView| launched::fits_profile(watch.target, c.discovery);
    lemma_only_one(candidates, fits, 0);
}

/// A window that stood there before, and that nothing relates to the launch,
/// is not taken for it.
pub proof fn law_old_windows_are_not_taken(
    watch: WatchView,
    active: Option<Seq<char>>,
    candidate: CandidateView,
)
    requires
        recognition::is_ordinary(watch.target),
        watch.before.contains(candidate.client.address),
        !candidate.related,
    ensures
        !launched::is_candidate(watch, active, candidate),
{
}

/// A browser may hand a launch over to a window only where that window has the
/// focus now, did not have it before or is new, and carries a stable
/// identifier; a Brave window has to show the one profile that was asked for,
/// and a web application the class.
pub proof fn law_handed_over_windows_have_the_focus(
    target: SessionClientView,
    candidate: CandidateView,
    before: Set<Seq<char>>,
    active_before: Option<Seq<char>>,
    active_after: Option<Seq<char>>,
)
    requires
        launched::is_handed_over(target, candidate, before, active_before, active_after),
    ensures
        active_after is Some,
        text::same_ignoring_case(active_after->0, candidate.client.address),
        candidate.client.stable_id is Some,
        !before.contains(candidate.client.address) || (active_before is Some && (
        active_before->0.len() == 0 || candidate.client.address.len() == 0
            || !text::same_ignoring_case(active_before->0, candidate.client.address))),
        target.class == "brave-browser"@ ==> {
            &&& candidate.discovery.complete
            &&& candidate.discovery.profiles.len() == 1
            &&& target.profile_directory is Some
            &&& text::same_ignoring_case(
                candidate.discovery.profiles[0],
                target.profile_directory->0,
            )
        },
        recognition::is_ordinary_class(target.class) ==> !recognition::is_ordinary_class(
            target.initial_class,
        ),
{
}

// ── Choosing ───────────────────────────────────────────────────────────────

spec fn ahead(a: ScoredView, b: ScoredView) -> bool {
    Scored::precedes(a, b)
}

proof fn lemma_ranked(all: Seq<ScoredView>)
    ensures
        ({
            let ranked = lists::sorted(
                all,
                |a: ScoredView, b: ScoredView| Scored::precedes(a, b),
            );
            &&& ranked.len() == all.len()
            &&& ranked.to_multiset() == all.to_multiset()
            &&& forall|i: int, j: int|
                0 <= i < j < all.len() ==> !ahead(#[trigger] ranked[j], #[trigger] ranked[i])
        }),
{
    let f = |a: ScoredView, b: ScoredView| Scored::precedes(a, b);
    assert forall|a: ScoredView, b: ScoredView| #[trigger] f(a, b) implies !f(b, a) by {
        text::lemma_comes_before_total(a.client.address, b.client.address);
    }
    assert forall|a: ScoredView, b: ScoredView, c: ScoredView|
        !(#[trigger] f(a, b)) && !(#[trigger] f(b, c)) implies !f(a, c) by {
        let (x, y, z) = (a.client.address, b.client.address, c.client.address);
        text::lemma_comes_before_total(x, y);
        text::lemma_comes_before_total(y, z);
        text::lemma_comes_before_total(x, z);
        if text::comes_before(y, x) && text::comes_before(z, y) {
            text::lemma_comes_before_transitive(z, y, x);
        }
    }
    lists::law_sorting_orders(all, f);
    let ranked = lists::sorted(all, f);
    assert forall|i: int, j: int| 0 <= i < j < all.len() implies !ahead(
        #[trigger] ranked[j],
        #[trigger] ranked[i],
    ) by {
        assert(!f(ranked[j], ranked[i]));
    }
}

proof fn lemma_scored(target: SessionClientView, candidates: Seq<CandidateView>, i: int)
    requires
        0 <= i < candidates.len(),
    ensures
        match identity::match_value(
            target,
            launched::seen_candidate(candidates[i]),
            MatchPolicy::Normal,
        ) {
            Some((score, _)) => launched::scored_candidates(target, candidates).contains(
                ScoredView { score, client: candidates[i].client },
            ),
            None => true,
        },
    decreases candidates.len(),
{
    let front = candidates.drop_last();
    let before = launched::scored_candidates(target, front);
    let all = launched::scored_candidates(target, candidates);
    match identity::match_value(
        target,
        launched::seen_candidate(candidates[i]),
        MatchPolicy::Normal,
    ) {
        Some((score, _)) => {
            let x = ScoredView { score, client: candidates[i].client };
            if i < candidates.len() - 1 {
                assert(front[i] == candidates[i]);
                lemma_scored(target, front, i);
                let k = choose|k: int| 0 <= k < before.len() && before[k] == x;
                assert(all[k] == x);
            } else {
                assert(all[before.len() as int] == x);
            }
        },
        None => {},
    }
}

proof fn lemma_scored_are_candidates(
    target: SessionClientView,
    candidates: Seq<CandidateView>,
    k: int,
)
    requires
        0 <= k < launched::scored_candidates(target, candidates).len(),
    ensures
        ({
            let x = launched::scored_candidates(target, candidates)[k];
            exists|i: int|
                0 <= i < candidates.len() && (#[trigger] candidates[i]).client == x.client && (
                match identity::match_value(
                    target,
                    launched::seen_candidate(candidates[i]),
                    MatchPolicy::Normal,
                ) {
                    Some((score, _)) => score == x.score,
                    None => false,
                })
        }),
    decreases candidates.len(),
{
    let front = candidates.drop_last();
    let before = launched::scored_candidates(target, front);
    let all = launched::scored_candidates(target, candidates);
    let last = candidates.len() - 1;
    if k < before.len() {
        assert(all[k] == before[k]);
        lemma_scored_are_candidates(target, front, k);
        let i = choose|i: int|
            0 <= i < front.len() && (#[trigger] front[i]).client == before[k].client && (
            match identity::match_value(
                target,
                launched::seen_candidate(front[i]),
                MatchPolicy::Normal,
            ) {
                Some((score, _)) => score == before[k].score,
                None => false,
            });
        assert(candidates[i] == front[i]);
    } else {
        assert(candidates[last] == candidates.last());
    }
}

/// Among several windows the one that is taken may be matched with the target,
/// and no window that may be matched is worth more; where two are worth most,
/// or none may be matched, none is taken.
pub proof fn law_best_window_is_taken(
    target: SessionClientView,
    candidates: Seq<CandidateView>,
    i: int,
)
    requires
        0 <= i < candidates.len(),
    ensures
        ({
            let value = |k: int|
                identity::match_value(
                    target,
                    launched::seen_candidate(candidates[k]),
                    MatchPolicy::Normal,
                );
            match launched::best_candidate(target, candidates) {
                Ok(window) => {
                    exists|k: int| #![trigger candidates[k]]
                        0 <= k < candidates.len() && candidates[k].client == window && value(k)
                            is Some && (value(i) is Some ==> (value(i)->0).0 <= (value(k)->0).0)
                },
                Err(problem) => problem is AmbiguousWindow && (value(i) is Some ==> exists|k: int|
                    #![trigger candidates[k]]
                    0 <= k < candidates.len() && value(k) is Some && (value(i)->0).0
                        <= (value(k)->0).0),
            }
        }),
{
    broadcast use vstd::seq_lib::group_to_multiset_ensures;

    let value = |k: int|
        identity::match_value(
            target,
            launched::seen_candidate(candidates[k]),
            MatchPolicy::Normal,
        );
    let all = launched::scored_candidates(target, candidates);
    lemma_ranked(all);
    lemma_scored(target, candidates, i);
    let ranked = lists::sorted(all, |a: ScoredView, b: ScoredView| Scored::precedes(a, b));
    match launched::best_candidate(target, candidates) {
        Ok(window) => {
            let x = ranked[0];
            assert(ranked.to_multiset().contains(x));
            assert(all.contains(x));
            let m = choose|m: int| 0 <= m < all.len() && all[m] == x;
            lemma_scored_are_candidates(target, candidates, m);
            let k = choose|k: int|
                0 <= k < candidates.len() && (#[trigger] candidates[k]).client == x.client && (
                match identity::match_value(
                    target,
                    launched::seen_candidate(candidates[k]),
                    MatchPolicy::Normal,
                ) {
                    Some((score, _)) => score == x.score,
                    None => false,
                });
            if value(i) is Some {
                let y = ScoredView { score: (value(i)->0).0, client: candidates[i].client };
                assert(all.contains(y));
                assert(all.to_multiset().contains(y));
                assert(ranked.contains(y));
                let n = choose|n: int| 0 <= n < ranked.len() && ranked[n] == y;
                if n > 0 {
                    assert(!ahead(ranked[n], ranked[0]));
                }
            }
            assert(value(k) is Some && (value(k)->0).0 == x.score);
            assert(candidates[k].client == window);
        },
        Err(problem) => {
            assert(candidates[i] == candidates[i]);
        },
    }
}

/// Two windows that are worth the same, and more than any other, leave it
/// open which one is meant.
pub proof fn law_equal_windows_are_ambiguous(
    target: SessionClientView,
    a: CandidateView,
    b: CandidateView,
)
    requires
        identity::match_value(target, launched::seen_candidate(a), MatchPolicy::Normal) is Some,
        identity::match_value(target, launched::seen_candidate(b), MatchPolicy::Normal) is Some,
    ensures
        ({
            let x = (identity::match_value(
                target,
                launched::seen_candidate(a),
                MatchPolicy::Normal,
            )->0).0;
            let y = (identity::match_value(
                target,
                launched::seen_candidate(b),
                MatchPolicy::Normal,
            )->0).0;
            let best = launched::best_candidate(target, seq![a, b]);
            &&& x > y ==> best == Ok::<HyprClientView, RestoreErrorView>(a.client)
            &&& y > x ==> best == Ok::<HyprClientView, RestoreErrorView>(b.client)
            &&& x == y ==> best is Err && best->Err_0 is AmbiguousWindow
        }),
{
    broadcast use vstd::seq_lib::group_to_multiset_ensures;

    let candidates = seq![a, b];
    let x = (identity::match_value(
        target,
        launched::seen_candidate(a),
        MatchPolicy::Normal,
    )->0).0;
    let y = (identity::match_value(
        target,
        launched::seen_candidate(b),
        MatchPolicy::Normal,
    )->0).0;
    let first = ScoredView { score: x, client: a.client };
    let second = ScoredView { score: y, client: b.client };
    assert(candidates.drop_last() =~= seq![a]);
    assert(seq![a].drop_last() =~= Seq::<CandidateView>::empty());
    assert(launched::scored_candidates(target, Seq::<CandidateView>::empty()) =~= Seq::<
        ScoredView,
    >::empty());
    assert(launched::scored_candidates(target, seq![a]) =~= seq![first]);
    let all = launched::scored_candidates(target, candidates);
    assert(all =~= seq![first, second]);
    lemma_ranked(all);
    let ranked = lists::sorted(all, |s: ScoredView, t: ScoredView| Scored::precedes(s, t));
    assert(!ahead(ranked[1], ranked[0]));
    assert(ranked.to_multiset().contains(ranked[0]));
    assert(ranked.to_multiset().contains(ranked[1]));
    assert(all.contains(ranked[0]));
    assert(all.contains(ranked[1]));
    assert(all.to_multiset().contains(first));
    assert(all.to_multiset().contains(second)) by {
        assert(all[1] == second);
    }
    assert(ranked.contains(first));
    assert(ranked.contains(second));
}

// ── Browsers ───────────────────────────────────────────────────────────────

/// A window does not fit a target with a profile where its process was read
/// completely and shows no such profile; one that could not be read speaks
/// neither way, and a Brave target in doubt fits none.
pub proof fn law_profiles_of_candidates(
    target: SessionClientView,
    candidate: CandidateView,
    profile: Seq<char>,
    i: int,
)
    ensures
        ({
            let fits = launched::fits_profile(target, candidate.discovery);
            let found = candidate.discovery;
            let brave = text::same_ignoring_case(target.class, "brave-browser"@)
                || text::same_ignoring_case(target.initial_class, "brave-browser"@);
            &&& brave && target.profile_identity_ambiguous ==> !fits
            &&& !brave && target.profile_directory is None ==> fits
            &&& !target.profile_identity_ambiguous && !found.complete ==> fits
            &&& !target.profile_identity_ambiguous && target.profile_directory == Some(profile)
                && 0 <= i < found.profiles.len() && text::same_ignoring_case(
                found.profiles[i],
                profile,
            ) ==> fits
            &&& target.profile_directory == Some(profile) && found.complete && (forall|k: int|
                0 <= k < found.profiles.len() ==> !text::same_ignoring_case(
                    #[trigger] found.profiles[k],
                    profile,
                )) ==> !fits
        }),
{
}

proof fn lemma_one_handover(
    watch: WatchView,
    now: u64,
    since: u64,
    active: Option<Seq<char>>,
    shown: Seq<CandidateView>,
    i: int,
    id: Seq<char>,
)
    requires
        text::starts_with_ignoring_case(watch.target.class, "chrome-"@),
        watch.target.initial_class == watch.target.class,
        watch.target.profile_directory is None,
        watch.launched.pid is Some,
        0 <= i < shown.len(),
        !shown[i].related,
        shown[i].client.class == watch.target.class,
        shown[i].client.stable_id == Some(id),
        id.len() > 0,
        shown[i].client.address.len() > 0,
        active == Some(shown[i].client.address),
        !watch.before.contains(shown[i].client.address),
        forall|k: int|
            0 <= k < shown.len() && k != i ==> is_of_another_application(
                watch.target,
                (#[trigger] shown[k]).client,
            ),
        watch.seen_since == Some(since),
    ensures
        launched::watch_step(watch, now, active, shown) == launched::unrelated_step(
            watch,
            now,
            since,
            active,
            seq![shown[i]],
        ),
        launched::handoffs_among(watch, active, seq![shown[i]]) == seq![shown[i]],
        launched::launched_window(watch.target, seq![shown[i]], watch.launched, true) == Ok::<
            HyprClientView,
            RestoreErrorView,
        >(shown[i].client),
{
    let class = watch.target.class;
    reveal_strlit("brave-browser");
    reveal_strlit("chrome-");
    assert(text::lowered(class.take(7))[0] == text::lowered("chrome-"@)[0]);
    assert(class.take(7)[0] == class[0]);
    assert(text::lowered(class)[0] == 'c');
    assert(text::lowered("brave-browser"@)[0] == 'b');
    let c = shown[i];
    assert(launched::is_handoff(watch, active, c));
    let keep = |x: CandidateView| launched::is_candidate(watch, active, x);
    assert forall|k: int| 0 <= k < shown.len() && k != i implies !keep(#[trigger] shown[k]) by {
        assert(is_of_another_application(watch.target, shown[k].client));
    }
    lemma_only_one(shown, keep, i);
    let candidates = launched::candidates_among(watch, active, shown);
    assert(candidates == seq![c]);
    let handed = |x: CandidateView| launched::is_handoff(watch, active, x);
    lemma_only_one(candidates, handed, 0);
    let handoffs = launched::handoffs_among(watch, active, candidates);
    assert(handoffs == seq![c]);
    let fits = |x: CandidateView| launched::fits_profile(watch.target, x.discovery);
    lemma_only_one(handoffs, fits, 0);
    let related = |x: CandidateView| x.related;
    lemma_none(handoffs, related);
    assert(!launched::some_related(candidates));
    let seen = WatchView { seen_since: Some(since), ..watch };
    assert(seen == watch);
}

/// A web application that its browser handed to one window is found there once
/// that window was seen for a quarter of a second; before that it is waited
/// for.
pub proof fn law_handed_over_window_is_found(
    watch: WatchView,
    now: u64,
    since: u64,
    active: Option<Seq<char>>,
    shown: Seq<CandidateView>,
    i: int,
    id: Seq<char>,
)
    requires
        text::starts_with_ignoring_case(watch.target.class, "chrome-"@),
        watch.target.initial_class == watch.target.class,
        watch.target.profile_directory is None,
        watch.launched.pid is Some,
        0 <= i < shown.len(),
        !shown[i].related,
        shown[i].client.class == watch.target.class,
        shown[i].client.stable_id == Some(id),
        id.len() > 0,
        shown[i].client.address.len() > 0,
        active == Some(shown[i].client.address),
        !watch.before.contains(shown[i].client.address),
        forall|k: int|
            0 <= k < shown.len() && k != i ==> is_of_another_application(
                watch.target,
                (#[trigger] shown[k]).client,
            ),
        watch.handed_to == Some((shown[i].client.address, id, since)),
        watch.seen_since == Some(since),
        since <= now,
    ensures
        ({
            let outcome = launched::watch_step(watch, now, active, shown).1;
            &&& now - since >= 250 ==> outcome == WatchOutcome::Found(shown[i].client)
            &&& now - since < 250 ==> outcome == WatchOutcome::Wait
        }),
{
    lemma_one_handover(watch, now, since, active, shown, i, id);
}

/// A window that was not yet seen to be handed over, or that is another one
/// behind the same address, is not taken at once: from now on it is watched
/// for a quarter of a second.
pub proof fn law_handovers_are_watched_from_their_start(
    watch: WatchView,
    now: u64,
    since: u64,
    active: Option<Seq<char>>,
    shown: Seq<CandidateView>,
    i: int,
    id: Seq<char>,
)
    requires
        text::starts_with_ignoring_case(watch.target.class, "chrome-"@),
        watch.target.initial_class == watch.target.class,
        watch.target.profile_directory is None,
        watch.launched.pid is Some,
        0 <= i < shown.len(),
        !shown[i].related,
        shown[i].client.class == watch.target.class,
        shown[i].client.stable_id == Some(id),
        id.len() > 0,
        shown[i].client.address.len() > 0,
        active == Some(shown[i].client.address),
        !watch.before.contains(shown[i].client.address),
        forall|k: int|
            0 <= k < shown.len() && k != i ==> is_of_another_application(
                watch.target,
                (#[trigger] shown[k]).client,
            ),
        watch.handed_to is Some ==> (watch.handed_to->0).0 != shown[i].client.address || (
        watch.handed_to->0).1 != id,
        watch.seen_since == Some(since),
        since <= now,
    ensures
        ({
            let (after, outcome) = launched::watch_step(watch, now, active, shown);
            &&& after.handed_to == Some((shown[i].client.address, id, now))
            &&& after.seen_since == Some(since)
            &&& now - since < 250 ==> outcome == WatchOutcome::Wait
            &&& now - since >= 250 ==> outcome == WatchOutcome::Fail(
                RestoreErrorView::UncorrelatedWindow { class: watch.target.class },
            )
        }),
{
    lemma_one_handover(watch, now, since, active, shown, i, id);
}

/// A profile is not taken to be open while the process of some candidate could
/// not be read: it is waited for, and given up after a quarter of a second.
pub proof fn law_unreadable_browsers_are_not_taken(
    watch: WatchView,
    now: u64,
    since: u64,
    active: Option<Seq<char>>,
    shown: Seq<CandidateView>,
    i: int,
)
    requires
        watch.target.class == "brave-browser"@,
        watch.target.profile_directory is Some,
        !watch.target.profile_identity_ambiguous,
        watch.seen_since == Some(since),
        0 <= i < shown.len(),
        shown[i].client.class == watch.target.class,
        !shown[i].discovery.complete,
        !watch.before.contains(shown[i].client.address),
    ensures
        ({
            let outcome = launched::watch_step(watch, now, active, shown).1;
            &&& now - since < 250 ==> outcome == WatchOutcome::Wait
            &&& now - since >= 250 ==> outcome == WatchOutcome::Fail(
                RestoreErrorView::UncorrelatedWindow { class: watch.target.class },
            )
        }),
{
    reveal_strlit("brave-browser");
    let keep = |c: CandidateView| launched::is_candidate(watch, active, c);
    assert(keep(shown[i]));
    shown.lemma_filter_contains(keep, i);
    let candidates = launched::candidates_among(watch, active, shown);
    let k = choose|k: int| 0 <= k < candidates.len() && candidates[k] == shown[i];
    assert(launched::some_incomplete(candidates));
}

/// Several new windows of an application whose process is not known leave it
/// open which one was launched.
pub proof fn law_several_new_windows_are_ambiguous(
    watch: WatchView,
    now: u64,
    active: Option<Seq<char>>,
    a: CandidateView,
    b: CandidateView,
)
    requires
        recognition::is_ordinary(watch.target),
        watch.launched.pid is None,
        !a.related && !b.related,
        watch.target.class.len() > 0,
        a.client.class == watch.target.class,
        b.client.class == watch.target.class,
        !watch.before.contains(a.client.address),
        !watch.before.contains(b.client.address),
    ensures
        ({
            let outcome = launched::watch_step(watch, now, active, seq![a, b]).1;
            outcome is Fail && outcome->Fail_0 is AmbiguousWindow
        }),
{
    let shown = seq![a, b];
    let keep = |c: CandidateView| launched::is_candidate(watch, active, c);
    assert(keep(a));
    assert(keep(b));
    lemma_both(a, b, keep);
    let candidates = launched::candidates_among(watch, active, shown);
    assert(candidates == shown);
    assert(candidates.len() == 2);
    assert(!launched::some_related(candidates)) by {
        assert(candidates[0] == a && candidates[1] == b);
    }
}

proof fn lemma_both<A>(a: A, b: A, keep: spec_fn(A) -> bool)
    requires
        keep(a),
        keep(b),
    ensures
        seq![a, b].filter(keep) == seq![a, b],
{
    reveal(Seq::filter);
    let all = seq![a, b];
    assert(all.drop_last() =~= seq![a]);
    assert(seq![a].drop_last() =~= Seq::<A>::empty());
    assert(Seq::<A>::empty().filter(keep) =~= Seq::<A>::empty());
    assert(seq![a].filter(keep) =~= seq![a]);
    assert(all.filter(keep) =~= all);
}

/// What is seen of a candidate is the window, the command line of its process
/// and its profile where it shows exactly one; a Brave window is in doubt
/// where it does not, or where its process could not be read completely.
pub proof fn law_candidates_are_seen_as_they_are(candidate: CandidateView)
    ensures
        ({
            let seen = launched::seen_candidate(candidate);
            let brave = text::same_ignoring_case(candidate.client.class, "brave-browser"@)
                || text::same_ignoring_case(candidate.client.initial_class, "brave-browser"@);
            let profiles = candidate.discovery.profiles;
            &&& seen.client == candidate.client
            &&& seen.process_command == candidate.command
            &&& profiles.len() == 1 ==> seen.profile_directory == Some(profiles[0])
            &&& profiles.len() != 1 ==> seen.profile_directory is None
            &&& seen.profile_identity_ambiguous <==> brave && (profiles.len() != 1
                || !candidate.discovery.complete)
        }),
{
}

/// A window of the launched process is taken before one of another process,
/// whatever that is worth.
pub proof fn law_related_windows_come_first(
    target: SessionClientView,
    a: CandidateView,
    b: CandidateView,
    launched: LaunchedProcess,
)
    requires
        recognition::is_ordinary(target),
        launched.pid is Some,
        a.related,
        !b.related,
    ensures
        launched::launched_window(target, seq![a, b], launched, false) == Ok::<
            HyprClientView,
            RestoreErrorView,
        >(a.client),
        launched::launched_window(target, seq![b], launched, false) is Err,
        launched::launched_window(target, seq![b], launched, true) == Ok::<
            HyprClientView,
            RestoreErrorView,
        >(b.client),
{
    let fits = |c: CandidateView| launched::fits_profile(target, c.discovery);
    assert(fits(a) && fits(b));
    lemma_both(a, b, fits);
    let related = |c: CandidateView| c.related;
    let both = seq![a, b];
    assert(both[0] == a && both[1] == b);
    lemma_only_one(both, related, 0);
    lemma_only_one(seq![b], fits, 0);
    lemma_none(seq![b], related);
}

} // verus!
