//! The one-to-one assignment of saved windows to open ones.

use crate::hungarian;
use crate::matching;
use crate::matching::MatchingStrategy;
use crate::restore::identity;
use crate::restore::identity::{MatchKind, MatchPolicy, ObservedClient, ObservedClientView};
use crate::restore::windows;
use crate::session::{SessionClient, SessionClientView};
use vstd::prelude::*;

verus! {

// ── The assignment problem ─────────────────────────────────────────────────

/// One column per row.
pub open spec fn columns(cols: Seq<int>) -> Seq<Option<usize>> {
    Seq::new(cols.len(), |t: int| Some(cols[t] as usize))
}

/// Solve a square maximum-weight assignment problem using the Hungarian
/// algorithm.  Returning one column per row keeps the caller's unmatched
/// handling explicit through dummy edges, rather than silently forcing a bad
/// app/window pairing.
pub fn maximum_weight_assignment(weights: &[Vec<i64>]) -> (r: Vec<Option<usize>>)
    requires
        weights.len() < usize::MAX,
        forall|a: int| 0 <= a < weights.len() ==> (#[trigger] weights@[a]).len() == weights.len(),
        forall|a: int, b: int|
            0 <= a < weights.len() && 0 <= b < weights.len() ==> -hungarian::WEIGHT_LIMIT
                <= #[trigger] weights@[a]@[b] <= hungarian::WEIGHT_LIMIT,
    ensures
        r@ == columns(
            hungarian::assignment(matching::wide_matrix(weights@), weights.len() as nat),
        ),
        hungarian::is_optimal_perfect(
            matching::wide_matrix(weights@),
            weights.len() as nat,
            hungarian::assignment(matching::wide_matrix(weights@), weights.len() as nat),
        ),
{
    let ghost m = matching::wide_matrix(weights@);
    let size = weights.len();
    let mut table: Vec<Vec<i64>> = Vec::new();
    let mut t: usize = 0;
    while t < size
        invariant
            size == weights.len(),
            t <= size,
            table.len() == t,
            forall|a: int| 0 <= a < size ==> (#[trigger] weights@[a]).len() == size,
            forall|a: int| 0 <= a < t ==> (#[trigger] table[a])@ == weights@[a]@,
        decreases size - t,
    {
        let mut row: Vec<i64> = Vec::new();
        let mut c: usize = 0;
        while c < size
            invariant
                size == weights.len(),
                t < size,
                c <= size,
                weights@[t as int].len() == size,
                row@ == weights@[t as int]@.take(c as int),
            decreases size - c,
        {
            row.push(weights[t][c]);
            assert(weights@[t as int]@.take(c + 1) =~= row@);
            c += 1;
        }
        assert(row@ =~= weights@[t as int]@);
        table.push(row);
        t += 1;
    }
    proof {
        assert forall|a: int, b: int| 0 <= a < size && 0 <= b < size implies hungarian::padded(
            m,
            a,
            b,
        ) == #[trigger] table[a]@[b] by {
            assert(table[a]@ == weights@[a]@);
            assert(m[a][b] == weights@[a]@[b] as int);
        }
        assert forall|a: int, b: int|
            -hungarian::WEIGHT_LIMIT <= #[trigger] hungarian::padded(m, a, b)
                <= hungarian::WEIGHT_LIMIT by {
            if 0 <= a < m.len() && 0 <= b < m[a].len() {
                assert(m[a][b] == weights@[a]@[b] as int);
            }
        }
        assert forall|a: int| 0 <= a < table.len() implies (#[trigger] table[a]).len()
            == table.len() by {
            assert(table[a]@ == weights@[a]@);
        }
    }
    let solved = hungarian::solve(&table, Ghost(m));
    let ghost cols = solved@.map_values(|c: usize| c as int);
    let mut assignment: Vec<Option<usize>> = Vec::new();
    let mut t: usize = 0;
    while t < size
        invariant
            size == solved.len(),
            cols == solved@.map_values(|c: usize| c as int),
            t <= size,
            assignment.len() == t,
            forall|a: int| 0 <= a < t ==> #[trigger] assignment[a] == columns(cols)[a],
        decreases size - t,
    {
        assignment.push(Some(solved[t]));
        t += 1;
    }
    assert(assignment@ =~= columns(cols));
    assignment
}

// ── Candidates ─────────────────────────────────────────────────────────────

/// A saved window and the open window that it was given.
#[derive(Debug, Clone, Copy, PartialEq, Eq, Structural)]
pub struct ReconcilePair {
    /// The place of the saved window.
    pub target_index: usize,
    /// The place of the open window.
    pub current_index: usize,
    /// What the match is worth.
    pub score: i32,
    /// What speaks for it.
    pub kind: MatchKind,
}

/// How many windows may be a saved one opened again.
pub open spec fn relaunch_count(
    target: SessionClientView,
    current: Seq<ObservedClientView>,
) -> nat
    decreases current.len(),
{
    if current.len() == 0 {
        0
    } else {
        relaunch_count(target, current.drop_last()) + if identity::is_relaunched(
            target,
            current.last(),
        ) {
            1nat
        } else {
            0
        }
    }
}

/// Counts the windows that may be a saved one opened again.
pub fn count_relaunched(target: &SessionClient, current: &[ObservedClient]) -> (r: usize)
    ensures
        r == relaunch_count(target@, current.deep_view()),
{
    let ghost all = current.deep_view();
    let mut count: usize = 0;
    let mut i: usize = 0;
    assert(all.take(0) =~= Seq::<ObservedClientView>::empty());
    while i < current.len()
        invariant
            i <= current.len(),
            all == current.deep_view(),
            count <= i,
            count == relaunch_count(target@, all.take(i as int)),
        decreases current.len() - i,
    {
        assert(all[i as int] == current[i as int]@);
        assert(all.take(i + 1).drop_last() =~= all.take(i as int));
        assert(all.take(i + 1).last() == all[i as int]);
        if identity::relaunch_fallback_identity_matches(target, &current[i]) {
            count += 1;
        }
        i += 1;
    }
    assert(all.take(i as int) =~= all);
    count
}

/// Several windows may equally be the saved one opened again.
pub open spec fn is_relaunched_twice(
    target: SessionClientView,
    observed: ObservedClientView,
    current: Seq<ObservedClientView>,
) -> bool {
    identity::is_relaunched(target, observed) && relaunch_count(target, current) != 1
}

/// The score and the reason of the match of a saved window with one of the
/// open windows, where it is a candidate.
pub open spec fn candidate(
    target: SessionClientView,
    observed: ObservedClientView,
    current: Seq<ObservedClientView>,
    policy: MatchPolicy,
    strong: bool,
) -> Option<(int, MatchKind)> {
    let value = if strong {
        windows::allowed_value(target, observed, false, policy)
    } else {
        identity::match_value(target, observed, policy)
    };
    if value is Some && !is_relaunched_twice(target, observed, current)
        && windows::chromium_is_safe(target, observed.client.address, current) {
        value
    } else {
        None
    }
}

/// What the candidates are worth; zero where there is none.
pub open spec fn worth(
    targets: Seq<SessionClientView>,
    current: Seq<ObservedClientView>,
    policy: MatchPolicy,
    strong: bool,
) -> Seq<Seq<int>> {
    Seq::new(
        targets.len(),
        |t: int|
            Seq::new(
                current.len(),
                |c: int|
                    match candidate(targets[t], current[c], current, policy, strong) {
                        Some((score, _)) => score,
                        None => 0,
                    },
            ),
    )
}

/// The pair of a target with the window that it was given.
pub open spec fn pair_of(
    targets: Seq<SessionClientView>,
    current: Seq<ObservedClientView>,
    policy: MatchPolicy,
    strong: bool,
    t: int,
    given: Option<usize>,
) -> Option<ReconcilePair> {
    match given {
        Some(c) => match candidate(targets[t], current[c as int], current, policy, strong) {
            Some((score, kind)) => Some(
                ReconcilePair {
                    target_index: t as usize,
                    current_index: c,
                    score: score as i32,
                    kind,
                },
            ),
            None => None,
        },
        None => None,
    }
}

/// The pairs of an assignment.
pub open spec fn pairs_of(
    targets: Seq<SessionClientView>,
    current: Seq<ObservedClientView>,
    policy: MatchPolicy,
    strong: bool,
    a: Seq<Option<usize>>,
) -> Seq<Option<ReconcilePair>> {
    Seq::new(targets.len(), |t: int| pair_of(targets, current, policy, strong, t, a[t]))
}

/// A plan gives the open windows to the targets as a strategy says: so that the
/// total worth is the largest there is, or taking the best pair at each step.
pub open spec fn is_reconciliation(
    targets: Seq<SessionClientView>,
    current: Seq<ObservedClientView>,
    policy: MatchPolicy,
    strong: bool,
    strategy: MatchingStrategy,
    plan: Seq<Option<ReconcilePair>>,
) -> bool {
    exists|a: Seq<Option<usize>>| #[trigger]
        matching::is_plan(worth(targets, current, policy, strong), strategy, a) && plan == pairs_of(
            targets,
            current,
            policy,
            strong,
            a,
        )
}

/// No open window is given to two targets, and every pair is a candidate.
pub proof fn law_reconciliation_is_one_to_one(
    targets: Seq<SessionClientView>,
    current: Seq<ObservedClientView>,
    policy: MatchPolicy,
    strong: bool,
    strategy: MatchingStrategy,
    plan: Seq<Option<ReconcilePair>>,
)
    requires
        current.len() <= usize::MAX,
        targets.len() <= usize::MAX,
        is_reconciliation(targets, current, policy, strong, strategy, plan),
    ensures
        plan.len() == targets.len(),
        forall|t: int|
            0 <= t < plan.len() && #[trigger] plan[t] is Some ==> {
                &&& plan[t]->0.target_index == t
                &&& plan[t]->0.current_index < current.len()
                &&& candidate(
                    targets[t],
                    current[plan[t]->0.current_index as int],
                    current,
                    policy,
                    strong,
                ) == Some((plan[t]->0.score as int, plan[t]->0.kind))
            },
        forall|t: int, s: int|
            0 <= t < s < plan.len() && #[trigger] plan[t] is Some && #[trigger] plan[s] is Some
                ==> plan[t]->0.current_index != plan[s]->0.current_index,
{
    let m = worth(targets, current, policy, strong);
    let a = choose|a: Seq<Option<usize>>| #[trigger]
        matching::is_plan(m, strategy, a) && plan == pairs_of(targets, current, policy, strong, a);
    assert(matching::rectangular(m));
    matching::law_plans_are_one_to_one(m, strategy, a);
    assert forall|t: int| 0 <= t < plan.len() && #[trigger] plan[t] is Some implies {
        &&& plan[t]->0.target_index == t
        &&& plan[t]->0.current_index < current.len()
        &&& a[t] == Some(plan[t]->0.current_index)
        &&& candidate(
            targets[t],
            current[plan[t]->0.current_index as int],
            current,
            policy,
            strong,
        ) == Some((plan[t]->0.score as int, plan[t]->0.kind))
    } by {
        assert(a[t] is Some);
        let c = a[t]->0;
        assert(c < matching::width(m));
        assert(m[t].len() == current.len());
        identity::law_matches_score_positive(targets[t], current[c as int]);
    }
    assert forall|t: int, s: int|
        0 <= t < s < plan.len() && #[trigger] plan[t] is Some && #[trigger] plan[s] is Some implies
        plan[t]->0.current_index != plan[s]->0.current_index by {
        assert(a[t] != a[s]);
    }
}

/// Equal targets and windows give equal plans, whatever the strategy.
pub proof fn law_reconciliation_is_deterministic(
    targets: Seq<SessionClientView>,
    current: Seq<ObservedClientView>,
    policy: MatchPolicy,
    strong: bool,
    strategy: MatchingStrategy,
    plan: Seq<Option<ReconcilePair>>,
    other: Seq<Option<ReconcilePair>>,
)
    requires
        is_reconciliation(targets, current, policy, strong, strategy, plan),
        is_reconciliation(targets, current, policy, strong, strategy, other),
    ensures
        plan == other,
{
    let m = worth(targets, current, policy, strong);
    let a = choose|a: Seq<Option<usize>>| #[trigger]
        matching::is_plan(m, strategy, a) && plan == pairs_of(targets, current, policy, strong, a);
    let b = choose|b: Seq<Option<usize>>| #[trigger]
        matching::is_plan(m, strategy, b) && other == pairs_of(targets, current, policy, strong, b);
    assert(matching::rectangular(m));
    matching::law_plans_are_deterministic(m, strategy, a, b);
}

/// What the pairs of a plan are worth together.
pub open spec fn plan_score(plan: Seq<Option<ReconcilePair>>) -> int
    decreases plan.len(),
{
    if plan.len() == 0 {
        0
    } else {
        plan_score(plan.drop_last()) + match plan.last() {
            Some(pair) => pair.score as int,
            None => 0,
        }
    }
}

proof fn lemma_plan_score(
    targets: Seq<SessionClientView>,
    current: Seq<ObservedClientView>,
    policy: MatchPolicy,
    strong: bool,
    a: Seq<Option<usize>>,
    k: int,
)
    requires
        0 <= k <= targets.len(),
        matching::one_to_one(worth(targets, current, policy, strong), a),
    ensures
        plan_score(pairs_of(targets, current, policy, strong, a).take(k)) == matching::total_score(
            worth(targets, current, policy, strong),
            a.take(k),
        ),
    decreases k,
{
    let m = worth(targets, current, policy, strong);
    let plan = pairs_of(targets, current, policy, strong, a);
    if k > 0 {
        lemma_plan_score(targets, current, policy, strong, a, k - 1);
        assert(plan.take(k).drop_last() =~= plan.take(k - 1));
        assert(a.take(k).drop_last() =~= a.take(k - 1));
        assert(plan.take(k).last() == plan[k - 1]);
        assert(a.take(k).last() == a[k - 1]);
        if a[k - 1] is Some {
            let c = a[k - 1]->0;
            assert(c < matching::width(m));
            assert(m[0].len() == current.len());
            identity::law_matches_score_positive(targets[k - 1], current[c as int]);
        }
    }
}

/// The global plan is worth at least as much as any way to give the open
/// windows to the targets one to one.
pub proof fn law_reconciliation_is_globally_best(
    targets: Seq<SessionClientView>,
    current: Seq<ObservedClientView>,
    policy: MatchPolicy,
    strong: bool,
    plan: Seq<Option<ReconcilePair>>,
    other: Seq<Option<usize>>,
)
    requires
        current.len() <= usize::MAX,
        is_reconciliation(targets, current, policy, strong, MatchingStrategy::Global, plan),
        matching::one_to_one(worth(targets, current, policy, strong), other),
    ensures
        matching::total_score(worth(targets, current, policy, strong), other) <= plan_score(plan),
{
    let m = worth(targets, current, policy, strong);
    let a = choose|a: Seq<Option<usize>>| #[trigger]
        matching::is_plan(m, MatchingStrategy::Global, a) && plan == pairs_of(
            targets,
            current,
            policy,
            strong,
            a,
        );
    assert(matching::rectangular(m));
    assert forall|t: int, c: int|
        0 <= t < m.len() && 0 <= c < matching::width(m) implies 0 <= #[trigger] m[t][c] by {
        assert(m[0].len() == current.len());
        identity::law_matches_score_positive(targets[t], current[c]);
    }
    matching::law_plans_are_one_to_one(m, MatchingStrategy::Global, a);
    matching::law_global_plan_is_maximal(m, a, other);
    lemma_plan_score(targets, current, policy, strong, a, targets.len() as int);
    assert(plan.take(targets.len() as int) =~= plan);
    assert(a.take(targets.len() as int) =~= a);
}

/// What a window is worth to a target that has no address and is no Chromium
/// window does not depend on the other windows.
pub proof fn law_worth_is_of_the_pair_alone(
    targets: Seq<SessionClientView>,
    current: Seq<ObservedClientView>,
    strong: bool,
    t: int,
    c: int,
)
    requires
        0 <= t < targets.len(),
        0 <= c < current.len(),
        !identity::is_known(targets[t].address),
        !identity::is_chromium(targets[t]),
    ensures
        worth(targets, current, MatchPolicy::Normal, strong)[t][c] == worth(
            seq![targets[t]],
            seq![current[c]],
            MatchPolicy::Normal,
            strong,
        )[0][0],
{
    assert(seq![targets[t]][0] == targets[t]);
    assert(seq![current[c]][0] == current[c]);
}

// ── The plan ───────────────────────────────────────────────────────────────

/// Padding a matrix with zeros to a square changes no assignment.
proof fn lemma_same_assignment(m: Seq<Seq<int>>, w: Seq<Seq<int>>, n: nat)
    requires
        forall|a: int, b: int|
            #![trigger hungarian::padded(m, a, b)]
            hungarian::padded(m, a, b) == hungarian::padded(w, a, b),
        hungarian::is_optimal_perfect(w, n, hungarian::assignment(w, n)),
    ensures
        hungarian::assignment(m, n) == hungarian::assignment(w, n),
        hungarian::is_optimal_perfect(m, n, hungarian::assignment(m, n)),
{
    let one = hungarian::square(m, n);
    let other = hungarian::square(w, n);
    assert forall|r: int| 0 <= r < n implies #[trigger] one[r] == other[r] by {
        assert(one[r] =~= other[r]);
    }
    assert(one =~= other);
    hungarian::lemma_same_optimum(w, m, n, hungarian::assignment(w, n));
}

fn find_candidate(
    target: &SessionClient,
    observed: &ObservedClient,
    current: &[ObservedClient],
    policy: MatchPolicy,
    strong: bool,
) -> (r: Option<(i32, MatchKind)>)
    ensures
        identity::value_view(r) == candidate(
            target@,
            observed@,
            current.deep_view(),
            policy,
            strong,
        ),
{
    let value = if strong {
        windows::allowed_match_with_policy(target, observed, false, policy)
    } else {
        identity::match_score_with_policy(target, observed, policy)
    };
    let (score, kind) = match value {
        Some(value) => value,
        None => {
            return None;
        },
    };
    if identity::relaunch_fallback_identity_matches(target, observed) && count_relaunched(
        target,
        current,
    ) != 1 {
        // A restarted app with two indistinguishable windows is not safe to
        // assign by geometry alone.
        return None;
    }
    if windows::generic_chromium_match_is_safe(target, observed, current) {
        Some((score, kind))
    } else {
        None
    }
}

fn candidates_of(
    target: &SessionClient,
    current: &[ObservedClient],
    policy: MatchPolicy,
    strong: bool,
) -> (r: Vec<Option<(i32, MatchKind)>>)
    ensures
        r.len() == current.len(),
        forall|c: int|
            0 <= c < r.len() ==> identity::value_view(#[trigger] r@[c]) == candidate(
                target@,
                current.deep_view()[c],
                current.deep_view(),
                policy,
                strong,
            ),
{
    let ghost all = current.deep_view();
    let mut row: Vec<Option<(i32, MatchKind)>> = Vec::new();
    let mut c: usize = 0;
    while c < current.len()
        invariant
            c <= current.len(),
            all == current.deep_view(),
            row.len() == c,
            forall|k: int|
                0 <= k < c ==> identity::value_view(#[trigger] row@[k]) == candidate(
                    target@,
                    all[k],
                    all,
                    policy,
                    strong,
                ),
        decreases current.len() - c,
    {
        assert(all[c as int] == current[c as int]@);
        row.push(find_candidate(target, &current[c], current, policy, strong));
        c += 1;
    }
    row
}

/// The weight of a candidate, if there is one.
spec fn weight_of(value: Option<(i32, MatchKind)>) -> i64 {
    match value {
        Some((score, _)) => score as i64,
        None => 0,
    }
}

/// The rows of the weights of some candidates, filled up with zeros.
fn weight_rows(candidates: &Vec<Vec<Option<(i32, MatchKind)>>>, width: usize, size: usize) -> (r:
    Vec<Vec<i64>>)
    requires
        forall|a: int| 0 <= a < candidates.len() ==> (#[trigger] candidates@[a]).len() == width,
        candidates.len() <= size,
        width <= size,
    ensures
        r.len() == size,
        forall|a: int| 0 <= a < size ==> (#[trigger] r@[a]).len() == size,
        forall|a: int, b: int|
            0 <= a < size && 0 <= b < size ==> #[trigger] r@[a]@[b] == if a < candidates.len() && b < width {
                weight_of(candidates@[a]@[b])
            } else {
                0
            },
{
    let mut weights: Vec<Vec<i64>> = Vec::new();
    let mut t: usize = 0;
    while t < size
        invariant
            forall|a: int|
                0 <= a < candidates.len() ==> (#[trigger] candidates@[a]).len() == width,
            candidates.len() <= size,
            width <= size,
            t <= size,
            weights.len() == t,
            forall|a: int| 0 <= a < t ==> (#[trigger] weights@[a]).len() == size,
            forall|a: int, b: int|
                0 <= a < t && 0 <= b < size ==> #[trigger] weights@[a]@[b] == if a < candidates.len() && b < width {
                    weight_of(candidates@[a]@[b])
                } else {
                    0
                },
        decreases size - t,
    {
        let mut row: Vec<i64> = Vec::new();
        let mut c: usize = 0;
        while c < size
            invariant
                forall|a: int|
                    0 <= a < candidates.len() ==> (#[trigger] candidates@[a]).len() == width,
                candidates.len() <= size,
                width <= size,
                t < size,
                c <= size,
                row.len() == c,
                forall|b: int|
                    0 <= b < c ==> #[trigger] row@[b] == if t < candidates.len() && b < width {
                        weight_of(candidates@[t as int]@[b])
                    } else {
                        0
                    },
            decreases size - c,
        {
            let mut weight: i64 = 0;
            if t < candidates.len() && c < width {
                assert(candidates@[t as int].len() == width);
                if let Some((score, _)) = &candidates[t][c] {
                    weight = *score as i64;
                }
            }
            row.push(weight);
            c += 1;
        }
        weights.push(row);
        t += 1;
    }
    weights
}

/// Build a deterministic one-to-one assignment between saved targets and the
/// windows that currently exist.  Strong identity evidence (initial class,
/// title, and terminal working directory) wins first; geometry is used as a
/// stable tie-breaker for otherwise identical app windows.
pub fn plan_reconciliation(targets: &[SessionClient], current: &[ObservedClient]) -> (r: Vec<
    Option<ReconcilePair>,
>)
    requires
        targets.len() < usize::MAX,
        current.len() < usize::MAX,
    ensures
        is_reconciliation(
            targets.deep_view(),
            current.deep_view(),
            MatchPolicy::Normal,
            false,
            MatchingStrategy::Global,
            r@,
        ),
{
    plan_reconciliation_with_policy(targets, current, MatchPolicy::Normal, false)
}

/// The scores of some candidates, zero where there is none.
fn score_rows(candidates: &Vec<Vec<Option<(i32, MatchKind)>>>) -> (r: Vec<Vec<i32>>)
    ensures
        r.len() == candidates.len(),
        forall|a: int|
            0 <= a < candidates.len() ==> (#[trigger] r@[a]).len() == candidates@[a].len(),
        forall|a: int, b: int|
            0 <= a < candidates.len() && 0 <= b < candidates@[a].len() ==> #[trigger] r@[a]@[b]
                == weight_of(candidates@[a]@[b]),
{
    let mut scores: Vec<Vec<i32>> = Vec::new();
    let mut t: usize = 0;
    while t < candidates.len()
        invariant
            t <= candidates.len(),
            scores.len() == t,
            forall|a: int| 0 <= a < t ==> (#[trigger] scores@[a]).len() == candidates@[a].len(),
            forall|a: int, b: int|
                0 <= a < t && 0 <= b < candidates@[a].len() ==> #[trigger] scores@[a]@[b]
                    == weight_of(candidates@[a]@[b]),
        decreases candidates.len() - t,
    {
        let mut row: Vec<i32> = Vec::new();
        let mut c: usize = 0;
        while c < candidates[t].len()
            invariant
                t < candidates.len(),
                c <= candidates@[t as int].len(),
                row.len() == c,
                forall|b: int|
                    0 <= b < c ==> #[trigger] row@[b] == weight_of(candidates@[t as int]@[b]),
            decreases candidates@[t as int].len() - c,
        {
            let mut score: i32 = 0;
            if let Some((worth, _)) = &candidates[t][c] {
                score = *worth;
            }
            row.push(score);
            c += 1;
        }
        scores.push(row);
        t += 1;
    }
    scores
}

fn all_candidates(
    targets: &[SessionClient],
    current: &[ObservedClient],
    policy: MatchPolicy,
    strong: bool,
) -> (r: Vec<Vec<Option<(i32, MatchKind)>>>)
    ensures
        r.len() == targets.len(),
        forall|a: int| 0 <= a < r.len() ==> (#[trigger] r@[a]).len() == current.len(),
        forall|a: int, b: int|
            0 <= a < r.len() && 0 <= b < current.len() ==> identity::value_view(
                #[trigger] r@[a]@[b],
            ) == candidate(
                targets.deep_view()[a],
                current.deep_view()[b],
                current.deep_view(),
                policy,
                strong,
            ),
{
    let ghost all = targets.deep_view();
    let ghost here = current.deep_view();
    let mut candidates: Vec<Vec<Option<(i32, MatchKind)>>> = Vec::new();
    let mut t: usize = 0;
    while t < targets.len()
        invariant
            t <= targets.len(),
            all == targets.deep_view(),
            here == current.deep_view(),
            here.len() == current.len(),
            candidates.len() == t,
            forall|a: int| 0 <= a < t ==> (#[trigger] candidates@[a]).len() == here.len(),
            forall|a: int, b: int|
                0 <= a < t && 0 <= b < here.len() ==> identity::value_view(
                    #[trigger] candidates@[a]@[b],
                ) == candidate(all[a], here[b], here, policy, strong),
        decreases targets.len() - t,
    {
        assert(all[t as int] == targets[t as int]@);
        candidates.push(candidates_of(&targets[t], current, policy, strong));
        t += 1;
    }
    candidates
}

/// A plan made by a strategy.
pub fn plan_reconciliation_with_strategy(
    targets: &[SessionClient],
    current: &[ObservedClient],
    strategy: MatchingStrategy,
) -> (r: Vec<Option<ReconcilePair>>)
    requires
        targets.len() < usize::MAX,
        current.len() < usize::MAX,
    ensures
        is_reconciliation(
            targets.deep_view(),
            current.deep_view(),
            MatchPolicy::Normal,
            false,
            strategy,
            r@,
        ),
{
    if strategy == MatchingStrategy::Global {
        return plan_reconciliation(targets, current);
    }
    let ghost all = targets.deep_view();
    let ghost here = current.deep_view();
    let ghost m = worth(all, here, MatchPolicy::Normal, false);
    let candidates = all_candidates(targets, current, MatchPolicy::Normal, false);
    let scores = score_rows(&candidates);
    proof {
        assert forall|a: int, b: int| 0 <= a < all.len() && 0 <= b < here.len() implies
            #[trigger] m[a][b] == scores@[a]@[b] by {
            assert(candidates@[a].len() == here.len());
            assert(identity::value_view(candidates@[a]@[b]) == candidate(
                all[a],
                here[b],
                here,
                MatchPolicy::Normal,
                false,
            ));
            identity::law_matches_score_positive(all[a], here[b]);
        }
        assert forall|a: int| 0 <= a < all.len() implies #[trigger] matching::matrix(scores@)[a]
            =~= m[a] by {
            assert(scores@[a].len() == candidates@[a].len());
            assert forall|b: int| 0 <= b < here.len() implies matching::matrix(scores@)[a][b]
                == m[a][b] by {}
        }
        assert(matching::matrix(scores@) =~= m);
    }
    let assignment = matching::assign(scores.as_slice(), strategy);
    proof {
        matching::law_plans_are_one_to_one(m, strategy, assignment@);
    }
    let mut plan: Vec<Option<ReconcilePair>> = Vec::new();
    let mut t: usize = 0;
    while t < targets.len()
        invariant
            t <= targets.len(),
            all.len() == targets.len(),
            here.len() == current.len(),
            assignment.len() == targets.len(),
            m == worth(all, here, MatchPolicy::Normal, false),
            matching::one_to_one(m, assignment@),
            candidates.len() == targets.len(),
            forall|a: int|
                0 <= a < candidates.len() ==> (#[trigger] candidates@[a]).len() == here.len(),
            forall|a: int, b: int|
                0 <= a < candidates.len() && 0 <= b < here.len() ==> identity::value_view(
                    #[trigger] candidates@[a]@[b],
                ) == candidate(all[a], here[b], here, MatchPolicy::Normal, false),
            plan.len() == t,
            forall|k: int|
                0 <= k < t ==> #[trigger] plan@[k] == pair_of(
                    all,
                    here,
                    MatchPolicy::Normal,
                    false,
                    k,
                    assignment@[k],
                ),
        decreases targets.len() - t,
    {
        let mut pair: Option<ReconcilePair> = None;
        if let Some(c) = assignment[t] {
            assert(assignment@[t as int] is Some);
            assert(m[0].len() == here.len());
            assert(c < matching::width(m));
            assert(candidates@[t as int].len() == here.len());
            assert(identity::value_view(candidates@[t as int]@[c as int]) == candidate(
                all[t as int],
                here[c as int],
                here,
                MatchPolicy::Normal,
                false,
            ));
            if let Some((score, kind)) = candidates[t][c] {
                pair = Some(ReconcilePair { target_index: t, current_index: c, score, kind });
            }
        }
        plan.push(pair);
        t += 1;
    }
    assert(plan@ =~= pairs_of(all, here, MatchPolicy::Normal, false, assignment@));
    plan
}

/// A plan under a policy; where strong identity is required, ambiguous matches
/// are no candidates.
pub fn plan_reconciliation_with_policy(
    targets: &[SessionClient],
    current: &[ObservedClient],
    policy: MatchPolicy,
    require_strong_identity: bool,
) -> (r: Vec<Option<ReconcilePair>>)
    requires
        targets.len() < usize::MAX,
        current.len() < usize::MAX,
    ensures
        is_reconciliation(
            targets.deep_view(),
            current.deep_view(),
            policy,
            require_strong_identity,
            MatchingStrategy::Global,
            r@,
        ),
{
    let ghost all = targets.deep_view();
    let ghost here = current.deep_view();
    let ghost m = worth(all, here, policy, require_strong_identity);
    let candidates = all_candidates(targets, current, policy, require_strong_identity);
    let size = if targets.len() >= current.len() {
        targets.len()
    } else {
        current.len()
    };
    let weights = weight_rows(&candidates, current.len(), size);
    let ghost w = matching::wide_matrix(weights@);
    proof {
        assert forall|a: int, b: int| 0 <= a < all.len() && 0 <= b < here.len() implies {
            &&& #[trigger] m[a][b] == weights@[a]@[b]
            &&& 0 <= m[a][b] <= 12_000
        } by {
            assert(identity::value_view(candidates@[a]@[b]) == candidate(
                all[a],
                here[b],
                here,
                policy,
                require_strong_identity,
            ));
            identity::law_matches_score_positive(all[a], here[b]);
        }
        assert forall|a: int, b: int| 0 <= a < size && 0 <= b < size implies 0
            <= #[trigger] weights@[a]@[b] <= 12_000 by {
            if a < all.len() && b < here.len() {
                assert(m[a][b] == weights@[a]@[b]);
            }
        }
    }
    let assignment = maximum_weight_assignment(weights.as_slice());
    let ghost cols = hungarian::assignment(w, size as nat);
    let ghost a: Seq<Option<usize>> = matching::eligible_part(m, cols);
    proof {
        assert forall|x: int, y: int|
            #![trigger hungarian::padded(m, x, y)]
            hungarian::padded(m, x, y) == hungarian::padded(w, x, y) by {
            if 0 <= x < size && 0 <= y < size {
                assert(w[x][y] == weights@[x]@[y] as int);
                if x < all.len() && y < here.len() {
                    assert(m[x][y] == weights@[x]@[y]);
                }
            }
        }
        lemma_same_assignment(m, w, size as nat);
        if all.len() > 0 {
            assert(m[0].len() == here.len());
            assert(matching::order(m) == size);
            assert(matching::is_global(m, a));
        }
    }
    let mut plan: Vec<Option<ReconcilePair>> = Vec::new();
    let mut t: usize = 0;
    while t < targets.len()
        invariant
            t <= targets.len(),
            all == targets.deep_view(),
            here == current.deep_view(),
            all.len() == targets.len(),
            here.len() == current.len(),
            m == worth(all, here, policy, require_strong_identity),
            a == matching::eligible_part(m, cols),
            targets.len() <= assignment.len(),
            assignment.len() == cols.len(),
            assignment@ == columns(cols),
            hungarian::is_perfect(cols, size as nat),
            candidates.len() == targets.len(),
            forall|a: int|
                0 <= a < candidates.len() ==> (#[trigger] candidates@[a]).len() == here.len(),
            forall|a: int, b: int|
                0 <= a < candidates.len() && 0 <= b < here.len() ==> identity::value_view(
                    #[trigger] candidates@[a]@[b],
                ) == candidate(all[a], here[b], here, policy, require_strong_identity),
            plan.len() == t,
            forall|k: int|
                0 <= k < t ==> #[trigger] plan@[k] == pair_of(
                    all,
                    here,
                    policy,
                    require_strong_identity,
                    k,
                    a[k],
                ),
        decreases targets.len() - t,
    {
        let mut pair: Option<ReconcilePair> = None;
        assert(assignment@[t as int] == columns(cols)[t as int]);
        assert(0 <= cols[t as int] < size);
        assert(m[0].len() == here.len());
        if let Some(c) = assignment[t] {
            assert(c == cols[t as int]);
            if c < current.len() {
                assert(candidates@[t as int].len() == here.len());
                assert(identity::value_view(candidates@[t as int]@[c as int]) == candidate(
                    all[t as int],
                    here[c as int],
                    here,
                    policy,
                    require_strong_identity,
                ));
                proof {
                    identity::law_matches_score_positive(all[t as int], here[c as int]);
                    assert(m[t as int][c as int] == match candidate(
                        all[t as int],
                        here[c as int],
                        here,
                        policy,
                        require_strong_identity,
                    ) {
                        Some((score, _)) => score,
                        None => 0,
                    });
                }
                if let Some((score, kind)) = candidates[t][c] {
                    pair = Some(
                        ReconcilePair { target_index: t, current_index: c, score, kind },
                    );
                }
            }
        }
        plan.push(pair);
        t += 1;
    }
    proof {
        assert(plan@ =~= pairs_of(all, here, policy, require_strong_identity, a));
        if all.len() == 0 {
            lemma_nothing_to_assign(m);
            let nothing = Seq::<Option<usize>>::empty();
            assert(matching::is_plan(m, MatchingStrategy::Global, nothing));
            assert(plan@ =~= pairs_of(all, here, policy, require_strong_identity, nothing));
        } else {
            assert(matching::is_plan(m, MatchingStrategy::Global, a));
        }
    }
    plan
}

/// Without targets there is an assignment.
proof fn lemma_nothing_to_assign(m: Seq<Seq<int>>)
    requires
        m.len() == 0,
    ensures
        matching::is_global(m, Seq::<Option<usize>>::empty()),
{
    let cols = hungarian::assignment(m, 0);
    assert(cols =~= Seq::<int>::empty());
    assert forall|other: Seq<int>| #[trigger]
        hungarian::is_perfect(other, 0) implies hungarian::perfect_total(m, other)
        <= hungarian::perfect_total(m, cols) by {
        assert(other =~= cols);
    }
    assert(hungarian::is_optimal_perfect(m, 0, cols));
    assert(matching::eligible_part(m, cols) =~= Seq::<Option<usize>>::empty());
    assert(matching::order(m) == 0);
}

} // verus!
