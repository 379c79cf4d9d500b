//! What holds of every search for a launched window.

use crate::lists;
use crate::lists::Ordered;
use crate::restore::identity;
use crate::restore::launched;
use crate::restore::launched::{CandidateView, Scored, ScoredView, WatchOutcome, WatchView};
use crate::restore::report::LaunchedProcess;
use crate::session::SessionClientView;
use vstd::prelude::*;

verus! {

/// What a filtered list holds stood in the list and was kept.
proof fn lemma_filter_holds<A>(s: Seq<A>, keep: spec_fn(A) -> bool, i: int)
    requires
        0 <= i < s.filter(keep).len(),
    ensures
        keep(s.filter(keep)[i]),
        s.contains(s.filter(keep)[i]),
    decreases s.len(),
{
    reveal(Seq::filter);
    if s.len() > 0 {
        let head = s.drop_last().filter(keep);
        if i < head.len() {
            lemma_filter_holds(s.drop_last(), keep, i);
            let k = choose|k: int| 0 <= k < s.len() - 1 && s.drop_last()[k] == head[i];
            assert(s[k] == head[i]);
        } else {
            assert(s[s.len() - 1] == s.last());
        }
    }
}

/// A sorted list holds nothing new.
proof fn lemma_sorted_holds<T>(s: Seq<T>, before: spec_fn(T, T) -> bool, i: int)
    requires
        0 <= i < lists::sorted(s, before).len(),
    ensures
        s.contains(lists::sorted(s, before)[i]),
    decreases s.len(),
{
    if s.len() > 0 {
        let rest = lists::sorted(s.skip(1), before);
        let p = lists::place_among(rest, s[0], before, 0);
        lists::lemma_place_among(rest, s[0], before, 0);
        let all = rest.insert(p, s[0]);
        if i == p {
            assert(s[0] == all[i]);
        } else {
            let k = if i < p {
                i
            } else {
                i - 1
            };
            assert(all[i] == rest[k]);
            lemma_sorted_holds(s.skip(1), before, k);
            let j = choose|j: int| 0 <= j < s.skip(1).len() && s.skip(1)[j] == rest[k];
            assert(s[j + 1] == rest[k]);
        }
    }
}

/// What is scored is the window of a candidate.
proof fn lemma_scored_holds(target: SessionClientView, candidates: Seq<CandidateView>, i: int)
    requires
        0 <= i < launched::scored_candidates(target, candidates).len(),
    ensures
        launched::clients_in(candidates).contains(
            launched::scored_candidates(target, candidates)[i].client,
        ),
    decreases candidates.len(),
{
    if candidates.len() > 0 {
        let head = candidates.drop_last();
        let before = launched::scored_candidates(target, head);
        if i < before.len() {
            lemma_scored_holds(target, head, i);
            let k = choose|k: int|
                0 <= k < launched::clients_in(head).len() && launched::clients_in(head)[k]
                    == before[i].client;
            assert(launched::clients_in(candidates)[k] == before[i].client);
        } else {
            assert(launched::clients_in(candidates)[candidates.len() - 1]
                == candidates.last().client);
        }
    }
}

/// The best candidate is a candidate.
proof fn lemma_best_holds(target: SessionClientView, candidates: Seq<CandidateView>)
    requires
        launched::best_candidate(target, candidates) is Ok,
    ensures
        launched::clients_in(candidates).contains(
            launched::best_candidate(target, candidates)->Ok_0,
        ),
{
    let scored = launched::scored_candidates(target, candidates);
    let before = |a: ScoredView, b: ScoredView| Scored::precedes(a, b);
    let ranked = lists::sorted(scored, before);
    lemma_sorted_holds(scored, before, 0);
    let k = choose|k: int| 0 <= k < scored.len() && scored[k] == ranked[0];
    lemma_scored_holds(target, candidates, k);
}

/// With a launched process, a window is chosen only where it is related to
/// that process, or the launch was handed over.
pub proof fn law_chosen_windows_are_correlated(
    target: SessionClientView,
    candidates: Seq<CandidateView>,
    process: LaunchedProcess,
    handed_over: bool,
)
    requires
        launched::launched_window(target, candidates, process, handed_over) is Ok,
    ensures
        ({
            let window = launched::launched_window(
                target,
                candidates,
                process,
                handed_over,
            )->Ok_0;
            exists|i: int|
                {
                    &&& 0 <= i < candidates.len()
                    &&& (#[trigger] candidates[i]).client == window
                    &&& launched::fits_profile(target, candidates[i].discovery)
                    &&& process.pid is Some ==> candidates[i].related || handed_over
                }
        }),
{
    let keep = |c: CandidateView| launched::fits_profile(target, c.discovery);
    let fitting = candidates.filter(keep);
    let near = |c: CandidateView| c.related;
    let related = if process.pid is Some {
        launched::related_candidates(fitting)
    } else {
        Seq::empty()
    };
    let pool = if related.len() == 0 {
        fitting
    } else {
        related
    };
    let window = launched::launched_window(target, candidates, process, handed_over)->Ok_0;
    let p = if pool.len() == 1 {
        0
    } else {
        lemma_best_holds(target, pool);
        choose|p: int|
            0 <= p < launched::clients_in(pool).len() && launched::clients_in(pool)[p] == window
    };
    assert(pool[p].client == window);
    let f = if related.len() == 0 {
        p
    } else {
        lemma_filter_holds(fitting, near, p);
        choose|f: int| 0 <= f < fitting.len() && fitting[f] == pool[p]
    };
    assert(fitting[f] == pool[p]);
    lemma_filter_holds(candidates, keep, f);
    let i = choose|i: int| 0 <= i < candidates.len() && candidates[i] == fitting[f];
    assert(candidates[i].client == window);
}

/// A window that a search finds has the class of the target and does not stand
/// against its profile; with a launched process, it is related to that process,
/// or the launch was handed over to it.
pub proof fn law_found_windows_are_correlated(
    watch: WatchView,
    now: u64,
    active_after: Option<Seq<char>>,
    shown: Seq<CandidateView>,
)
    requires
        launched::watch_step(watch, now, active_after, shown).1 is Found,
    ensures
        exists|i: int|
            {
                &&& 0 <= i < shown.len()
                &&& launched::watch_step(watch, now, active_after, shown).1
                    == WatchOutcome::Found((#[trigger] shown[i]).client)
                &&& identity::classes_agree(watch.target, shown[i].client)
                &&& launched::fits_profile(watch.target, shown[i].discovery)
                &&& watch.launched.pid is Some ==> shown[i].related || launched::is_handoff(
                    watch,
                    active_after,
                    shown[i],
                )
            },
{
    let keep = |c: CandidateView| launched::is_candidate(watch, active_after, c);
    let candidates = launched::candidates_among(watch, active_after, shown);
    let since = match watch.seen_since {
        Some(since) => since,
        None => now,
    };
    let seen = WatchView { seen_since: Some(since), ..watch };
    let handoffs = launched::handoffs_among(seen, active_after, candidates);
    let by_handoff = watch.launched.pid is Some && !launched::some_related(candidates);
    let pool = if by_handoff {
        handoffs
    } else {
        candidates
    };
    law_chosen_windows_are_correlated(watch.target, pool, watch.launched, by_handoff);
    let window = launched::launched_window(watch.target, pool, watch.launched, by_handoff)->Ok_0;
    let p = choose|p: int|
        {
            &&& 0 <= p < pool.len()
            &&& (#[trigger] pool[p]).client == window
            &&& launched::fits_profile(watch.target, pool[p].discovery)
            &&& watch.launched.pid is Some ==> pool[p].related || by_handoff
        };
    let c = if by_handoff {
        lemma_filter_holds(
            candidates,
            |c: CandidateView| launched::is_handoff(seen, active_after, c),
            p,
        );
        assert(launched::is_handoff(watch, active_after, pool[p]));
        choose|c: int| 0 <= c < candidates.len() && candidates[c] == pool[p]
    } else {
        p
    };
    lemma_filter_holds(shown, keep, c);
    let i = choose|i: int| 0 <= i < shown.len() && shown[i] == candidates[c];
    assert(shown[i].client == window);
}

} // verus!
