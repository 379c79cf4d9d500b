//! Window assignment strategies used by reconciliation.
//!
//! This module knows nothing about Hyprland or application identity.  The
//! restore layer supplies a matrix whose positive entries are eligible matches
//! of a target (row) with an open window (column); this module decides which
//! eligible edges to keep.

use crate::hungarian;
use vstd::prelude::*;

verus! {

/// Strategy used to turn scored candidate matches into a one-to-one plan.
#[derive(Debug, Clone, Copy, PartialEq, Eq, Structural)]
pub enum MatchingStrategy {
    /// Maximize the total score across the whole target set.
    Global,
    /// Take the highest-scoring remaining edge at each step.
    ///
    /// Ties are resolved by target index and then by window index, so repeated
    /// runs over the same observation are deterministic.
    Greedy,
}

impl Default for MatchingStrategy {
    fn default() -> (r: Self)
        ensures
            r == MatchingStrategy::Global,
    {
        MatchingStrategy::Global
    }
}

/// The numbers of a score matrix.
pub open spec fn matrix(scores: Seq<Vec<i32>>) -> Seq<Seq<int>> {
    scores.map_values(|row: Vec<i32>| row@.map_values(|x: i32| x as int))
}

/// The numbers of a matrix of wide scores.
pub open spec fn wide_matrix(scores: Seq<Vec<i64>>) -> Seq<Seq<int>> {
    scores.map_values(|row: Vec<i64>| row@.map_values(|x: i64| x as int))
}

/// The number of windows that a matrix speaks of.
pub open spec fn width(m: Seq<Seq<int>>) -> nat {
    if m.len() == 0 {
        0
    } else {
        m[0].len()
    }
}

/// Every row has one score per window.
pub open spec fn rectangular(m: Seq<Seq<int>>) -> bool {
    forall|t: int| 0 <= t < m.len() ==> (#[trigger] m[t]).len() == width(m)
}

/// One entry per target, and no window for two targets.
pub open spec fn one_to_one(m: Seq<Seq<int>>, a: Seq<Option<usize>>) -> bool {
    &&& a.len() == m.len()
    &&& forall|t: int| 0 <= t < a.len() && #[trigger] a[t] is Some ==> a[t]->0 < width(m)
    &&& forall|t: int, s: int|
        0 <= t < s < a.len() && #[trigger] a[t] is Some && #[trigger] a[s] is Some ==> a[t] != a[s]
}

/// Every chosen edge is eligible.
pub open spec fn keeps_eligible_edges(m: Seq<Seq<int>>, a: Seq<Option<usize>>) -> bool {
    forall|t: int| 0 <= t < a.len() && #[trigger] a[t] is Some ==> m[t][a[t]->0 as int] > 0
}

/// The sum of the scores of the chosen edges.
pub open spec fn total_score(m: Seq<Seq<int>>, a: Seq<Option<usize>>) -> int
    decreases a.len(),
{
    if a.len() == 0 {
        0
    } else {
        total_score(m, a.drop_last()) + match a.last() {
            Some(c) => m[a.len() - 1][c as int],
            None => 0,
        }
    }
}

/// The order of the square that holds all targets and windows.
pub open spec fn order(m: Seq<Seq<int>>) -> nat {
    if m.len() >= width(m) {
        m.len()
    } else {
        width(m)
    }
}

/// The eligible part of a perfect assignment of the matrix filled up with
/// zeros to a square.
pub open spec fn eligible_part(m: Seq<Seq<int>>, cols: Seq<int>) -> Seq<Option<usize>> {
    Seq::new(
        m.len(),
        |t: int|
            if cols[t] < width(m) && m[t][cols[t]] > 0 {
                Some(cols[t] as usize)
            } else {
                None
            },
    )
}

/// The plan of the global strategy, as a function of the scores.
pub open spec fn global_plan(m: Seq<Seq<int>>) -> Seq<Option<usize>> {
    eligible_part(m, hungarian::assignment(m, order(m)))
}

/// `a` is the plan of the global strategy, and it comes of a best perfect
/// assignment.
pub open spec fn is_global(m: Seq<Seq<int>>, a: Seq<Option<usize>>) -> bool {
    &&& a == global_plan(m)
    &&& hungarian::is_optimal_perfect(m, order(m), hungarian::assignment(m, order(m)))
}

/// An edge comes first when it scores higher, and among equals when its
/// target, then its window, comes first.
pub open spec fn comes_first(m: Seq<Seq<int>>, t1: int, c1: int, t2: int, c2: int) -> bool {
    ||| m[t1][c1] > m[t2][c2]
    ||| m[t1][c1] == m[t2][c2] && t1 < t2
    ||| m[t1][c1] == m[t2][c2] && t1 == t2 && c1 < c2
}

/// `(t, c)` is an edge that may be chosen.
pub open spec fn is_eligible(m: Seq<Seq<int>>, t: int, c: int) -> bool {
    0 <= t < m.len() && 0 <= c < width(m) && m[t][c] > 0
}

/// The target or the window of an edge is taken by a chosen edge that comes
/// first.
pub open spec fn is_preempted(m: Seq<Seq<int>>, a: Seq<Option<usize>>, t: int, c: int) -> bool {
    exists|s: int|
        0 <= s < a.len() && #[trigger] a[s] is Some && (s == t || a[s]->0 == c) && comes_first(
            m,
            s,
            a[s]->0 as int,
            t,
            c,
        )
}

/// Each eligible edge is chosen unless one that comes first stands against it.
pub open spec fn is_greedy(m: Seq<Seq<int>>, a: Seq<Option<usize>>) -> bool {
    &&& one_to_one(m, a)
    &&& keeps_eligible_edges(m, a)
    &&& forall|t: int, c: int| #[trigger]
        is_eligible(m, t, c) && a[t] != Some(c as usize) ==> is_preempted(m, a, t, c)
}

/// What a plan promises under a strategy.
pub open spec fn is_plan(
    m: Seq<Seq<int>>,
    strategy: MatchingStrategy,
    a: Seq<Option<usize>>,
) -> bool {
    match strategy {
        MatchingStrategy::Global => is_global(m, a),
        MatchingStrategy::Greedy => is_greedy(m, a),
    }
}

/// Assign candidates according to `strategy`.
///
/// Each row represents one saved target and each column one currently open
/// window.  A positive score is an eligible match; zero means that the edge is
/// not eligible.  The returned vector has one entry per target.
pub fn assign(scores: &[Vec<i32>], strategy: MatchingStrategy) -> (r: Vec<Option<usize>>)
    requires
        rectangular(matrix(scores@)),
        scores.len() < usize::MAX,
        width(matrix(scores@)) < usize::MAX,
    ensures
        is_plan(matrix(scores@), strategy, r@),
{
    match strategy {
        MatchingStrategy::Global => maximum_weight_assignment(scores),
        MatchingStrategy::Greedy => greedy_assignment(scores),
    }
}

/// The number of columns, taken from the first row.
fn column_count(scores: &[Vec<i32>]) -> (r: usize)
    ensures
        r == width(matrix(scores@)),
{
    if scores.len() == 0 {
        0
    } else {
        scores[0].len()
    }
}

/// Solve a rectangular maximum-weight assignment problem with optional
/// unmatched targets and windows represented by zero-weight edges.
fn maximum_weight_assignment(scores: &[Vec<i32>]) -> (r: Vec<Option<usize>>)
    requires
        rectangular(matrix(scores@)),
        scores.len() < usize::MAX,
        width(matrix(scores@)) < usize::MAX,
    ensures
        is_global(matrix(scores@), r@),
{
    let ghost m = matrix(scores@);
    let target_count = scores.len();
    let current_count = column_count(scores);
    let size = if target_count > current_count {
        target_count
    } else {
        current_count
    };
    let mut weights: Vec<Vec<i64>> = Vec::new();
    let mut t: usize = 0;
    while t < size
        invariant
            m == matrix(scores@),
            rectangular(m),
            target_count == scores.len(),
            current_count == width(m),
            size == order(m),
            t <= size,
            weights.len() == t,
            forall|a: int| 0 <= a < t ==> (#[trigger] weights[a]).len() == size,
            forall|a: int, b: int|
                0 <= a < t && 0 <= b < size ==> hungarian::padded(m, a, b)
                    == #[trigger] weights[a]@[b],
        decreases size - t,
    {
        let mut row: Vec<i64> = Vec::new();
        let mut c: usize = 0;
        while c < size
            invariant
                m == matrix(scores@),
                rectangular(m),
                target_count == scores.len(),
                current_count == width(m),
                size == order(m),
                t < size,
                c <= size,
                row.len() == c,
                forall|b: int|
                    0 <= b < c ==> hungarian::padded(m, t as int, b) == #[trigger] row[b],
            decreases size - c,
        {
            if t < target_count && c < current_count {
                assert(m[t as int].len() == width(m));
                row.push(scores[t][c] as i64);
            } else {
                proof {
                    if t < target_count {
                        assert(m[t as int].len() == width(m));
                    }
                }
                row.push(0);
            }
            c += 1;
        }
        weights.push(row);
        t += 1;
    }
    proof {
        assert forall|a: int, b: int|
            -hungarian::WEIGHT_LIMIT <= #[trigger] hungarian::padded(m, a, b)
                <= hungarian::WEIGHT_LIMIT by {
            if 0 <= a < m.len() && 0 <= b < m[a].len() {
                assert(m[a][b] == scores@[a]@[b] as int);
            }
        }
    }
    let columns = hungarian::solve(&weights, Ghost(m));
    let ghost cols = columns@.map_values(|c: usize| c as int);
    let mut assignment: Vec<Option<usize>> = Vec::new();
    let mut t: usize = 0;
    while t < target_count
        invariant
            m == matrix(scores@),
            rectangular(m),
            target_count == scores.len(),
            current_count == width(m),
            target_count <= columns.len(),
            cols == columns@.map_values(|c: usize| c as int),
            t <= target_count,
            assignment.len() == t,
            forall|a: int|
                0 <= a < t ==> #[trigger] assignment[a] == eligible_part(m, cols)[a],
        decreases target_count - t,
    {
        let c = columns[t];
        assert(cols[t as int] == c);
        assert(m[t as int].len() == width(m));
        if c < current_count && scores[t][c] > 0 {
            assignment.push(Some(c));
        } else {
            assignment.push(None);
        }
        t += 1;
    }
    assert(assignment@ =~= eligible_part(m, cols));
    assignment
}

/// Tells whether the first edge, given with its score, comes first.
fn edge_comes_first(a: &(i32, usize, usize), b: &(i32, usize, usize)) -> (r: bool)
    ensures
        r <==> (a.0 > b.0 || (a.0 == b.0 && a.1 < b.1) || (a.0 == b.0 && a.1 == b.1 && a.2 < b.2)),
{
    a.0 > b.0 || (a.0 == b.0 && a.1 < b.1) || (a.0 == b.0 && a.1 == b.1 && a.2 < b.2)
}

/// `e` is an eligible edge with its score.
spec fn is_edge(m: Seq<Seq<int>>, e: (i32, usize, usize)) -> bool {
    &&& is_eligible(m, e.1 as int, e.2 as int)
    &&& m[e.1 as int][e.2 as int] == e.0
}

/// The edges stand in the order in which they are considered.
spec fn ordered(m: Seq<Seq<int>>, edges: Seq<(i32, usize, usize)>) -> bool {
    &&& forall|i: int| 0 <= i < edges.len() ==> is_edge(m, #[trigger] edges[i])
    &&& forall|i: int, j: int|
        0 <= i < j < edges.len() ==> comes_first(
            m,
            (#[trigger] edges[i]).1 as int,
            edges[i].2 as int,
            (#[trigger] edges[j]).1 as int,
            edges[j].2 as int,
        )
}

spec fn lists(edges: Seq<(i32, usize, usize)>, t: int, c: int) -> bool {
    exists|i: int| 0 <= i < edges.len() && (#[trigger] edges[i]).1 == t && edges[i].2 == c
}

/// Puts an edge in its place.
fn insert_edge(
    edges: &mut Vec<(i32, usize, usize)>,
    e: (i32, usize, usize),
    Ghost(m): Ghost<Seq<Seq<int>>>,
)
    requires
        ordered(m, old(edges)@),
        is_edge(m, e),
        !lists(old(edges)@, e.1 as int, e.2 as int),
    ensures
        ordered(m, final(edges)@),
        forall|t: int, c: int| #[trigger]
            lists(final(edges)@, t, c) <==> lists(old(edges)@, t, c) || (t == e.1 && c == e.2),
{
    let ghost edges0 = edges@;
    let mut at: usize = edges.len();
    while at > 0 && edge_comes_first(&e, &edges[at - 1])
        invariant
            at <= edges.len(),
            edges@ == edges0,
            ordered(m, edges0),
            is_edge(m, e),
            forall|i: int|
                at <= i < edges.len() ==> comes_first(
                    m,
                    e.1 as int,
                    e.2 as int,
                    (#[trigger] edges[i]).1 as int,
                    edges[i].2 as int,
                ),
        decreases at,
    {
        proof {
            assert(is_edge(m, edges0[at - 1]));
        }
        at -= 1;
    }
    proof {
        if at > 0 {
            assert(is_edge(m, edges0[at - 1]));
            assert(edges0[at - 1].1 != e.1 || edges0[at - 1].2 != e.2);
        }
    }
    edges.insert(at, e);
    proof {
        assert forall|i: int, j: int| 0 <= i < j < edges.len() implies comes_first(
            m,
            (#[trigger] edges[i]).1 as int,
            edges[i].2 as int,
            (#[trigger] edges[j]).1 as int,
            edges[j].2 as int,
        ) by {
            let i0 = if i < at { i } else { i - 1 };
            let j0 = if j < at { j } else { j - 1 };
            if i != at {
                assert(edges[i] == edges0[i0]);
            }
            if j != at {
                assert(edges[j] == edges0[j0]);
            }
            if j == at {
                assert(edges0[at - 1].1 == edges[at - 1].1);
                if i < at - 1 {
                    let x = edges0[i];
                    let y = edges0[at - 1];
                    assert(comes_first(m, x.1 as int, x.2 as int, y.1 as int, y.2 as int));
                }
            }
        }
        assert forall|i: int| 0 <= i < edges.len() implies is_edge(m, #[trigger] edges[i]) by {
            if i < at {
                assert(edges[i] == edges0[i]);
            } else if i > at {
                assert(edges[i] == edges0[i - 1]);
            }
        }
        assert forall|t: int, c: int| #[trigger]
            lists(edges@, t, c) <==> lists(edges0, t, c) || (t == e.1 && c == e.2) by {
            if lists(edges@, t, c) {
                let i = choose|i: int|
                    0 <= i < edges.len() && (#[trigger] edges[i]).1 == t && edges[i].2 == c;
                if i < at {
                    assert(edges0[i] == edges[i]);
                } else if i > at {
                    assert(edges0[i - 1] == edges[i]);
                }
            }
            if lists(edges0, t, c) {
                let i = choose|i: int|
                    0 <= i < edges0.len() && (#[trigger] edges0[i]).1 == t && edges0[i].2 == c;
                if i < at {
                    assert(edges[i] == edges0[i]);
                } else {
                    assert(edges[i + 1] == edges0[i]);
                }
            }
            if t == e.1 && c == e.2 {
                assert(edges[at as int] == e);
            }
        }
    }
}

/// All eligible edges, in the order in which they are considered.
fn eligible_edges(scores: &[Vec<i32>]) -> (edges: Vec<(i32, usize, usize)>)
    requires
        rectangular(matrix(scores@)),
    ensures
        ordered(matrix(scores@), edges@),
        forall|t: int, c: int| #[trigger]
            is_eligible(matrix(scores@), t, c) <==> lists(edges@, t, c),
{
    let ghost m = matrix(scores@);
    let current_count = column_count(scores);
    let mut edges: Vec<(i32, usize, usize)> = Vec::new();
    let mut t: usize = 0;
    while t < scores.len()
        invariant
            m == matrix(scores@),
            rectangular(m),
            current_count == width(m),
            t <= scores.len(),
            ordered(m, edges@),
            forall|a: int, b: int| #[trigger]
                lists(edges@, a, b) <==> is_eligible(m, a, b) && a < t,
        decreases scores.len() - t,
    {
        let mut c: usize = 0;
        while c < current_count
            invariant
                m == matrix(scores@),
                rectangular(m),
                current_count == width(m),
                t < scores.len(),
                c <= current_count,
                ordered(m, edges@),
                forall|a: int, b: int| #[trigger]
                    lists(edges@, a, b) <==> is_eligible(m, a, b) && (a < t || (a == t && b < c)),
            decreases current_count - c,
        {
            assert(m[t as int].len() == width(m));
            let score = scores[t][c];
            if score > 0 {
                assert(m[t as int][c as int] == score);
                insert_edge(&mut edges, (score, t, c), Ghost(m));
            }
            c += 1;
        }
        t += 1;
    }
    proof {
        assert forall|a: int, b: int| #[trigger]
            is_eligible(m, a, b) <==> lists(edges@, a, b) by {
            assert(lists(edges@, a, b) <==> is_eligible(m, a, b) && a < m.len());
        }
    }
    edges
}

/// Select the highest-scoring unclaimed edge until no eligible edge remains.
fn greedy_assignment(scores: &[Vec<i32>]) -> (r: Vec<Option<usize>>)
    requires
        rectangular(matrix(scores@)),
    ensures
        is_greedy(matrix(scores@), r@),
{
    let ghost m = matrix(scores@);
    let target_count = scores.len();
    let current_count = column_count(scores);
    let edges = eligible_edges(scores);
    let mut assignment: Vec<Option<usize>> = vec![None; target_count];
    let mut used_current: Vec<bool> = vec![false; current_count];
    let mut i: usize = 0;
    while i < edges.len()
        invariant
            m == matrix(scores@),
            rectangular(m),
            target_count == scores.len() == m.len(),
            current_count == width(m),
            i <= edges.len(),
            ordered(m, edges@),
            one_to_one(m, assignment@),
            keeps_eligible_edges(m, assignment@),
            used_current.len() == current_count,
            forall|c: int|
                0 <= c < current_count ==> (#[trigger] used_current[c] <==> exists|t: int|
                    0 <= t < target_count && #[trigger] assignment[t] == Some(c as usize)),
            // A chosen edge was considered.
            forall|t: int|
                0 <= t < target_count && #[trigger] assignment[t] is Some ==> lists(
                    edges@.take(i as int),
                    t,
                    assignment[t]->0 as int,
                ),
            // A considered edge was chosen or stands back.
            forall|k: int|
                0 <= k < i ==> {
                    let e = #[trigger] edges[k];
                    assignment[e.1 as int] == Some(e.2) || is_preempted(
                        m,
                        assignment@,
                        e.1 as int,
                        e.2 as int,
                    )
                },
        decreases edges.len() - i,
    {
        let (_, t, c) = edges[i];
        let ghost before = assignment@;
        let ghost e = edges[i as int];
        proof {
            assert(is_edge(m, edges[i as int]));
        }
        // Whatever was chosen so far comes before the edge at hand.
        assert forall|s: int| 0 <= s < target_count && #[trigger] before[s] is Some implies comes_first(
            m,
            s,
            before[s]->0 as int,
            t as int,
            c as int,
        ) by {
            let k = choose|k: int|
                0 <= k < edges@.take(i as int).len() && (#[trigger] edges@.take(i as int)[k]).1 == s
                    && edges@.take(i as int)[k].2 == before[s]->0;
            assert(edges[k] == edges@.take(i as int)[k]);
        }
        if assignment[t].is_none() && !used_current[c] {
            used_current.set(c, true);
            assignment.set(t, Some(c));
            proof {
                assert(assignment[t as int] == Some(c));
                assert forall|b: int| 0 <= b < current_count implies (#[trigger] used_current[b]
                    <==> exists|s: int|
                    0 <= s < target_count && #[trigger] assignment[s] == Some(b as usize)) by {
                    if exists|s: int| 0 <= s < target_count && #[trigger] before[s] == Some(b as usize) {
                        let s = choose|s: int|
                            0 <= s < target_count && #[trigger] before[s] == Some(b as usize);
                        assert(s != t);
                        assert(assignment[s] == Some(b as usize));
                    }
                    if exists|s: int|
                        0 <= s < target_count && #[trigger] assignment[s] == Some(b as usize) {
                        let s = choose|s: int|
                            0 <= s < target_count && #[trigger] assignment[s] == Some(b as usize);
                        if s != t {
                            assert(before[s] == Some(b as usize));
                        }
                    }
                }
                assert forall|k: int| 0 <= k < i + 1 implies {
                    let e = #[trigger] edges[k];
                    assignment[e.1 as int] == Some(e.2) || is_preempted(
                        m,
                        assignment@,
                        e.1 as int,
                        e.2 as int,
                    )
                } by {
                    let f = edges[k];
                    assert(is_edge(m, f));
                    if k < i {
                        if before[f.1 as int] == Some(f.2) {
                            assert(f.1 != t);
                        } else {
                            let s = choose|s: int|
                                0 <= s < before.len() && #[trigger] before[s] is Some && (s == f.1
                                    || before[s]->0 == f.2) && comes_first(
                                    m,
                                    s,
                                    before[s]->0 as int,
                                    f.1 as int,
                                    f.2 as int,
                                );
                            assert(s != t);
                            assert(assignment[s] == before[s]);
                        }
                    }
                }
            }
        } else {
            proof {
                if before[t as int] is None {
                    let s = choose|s: int|
                        0 <= s < target_count && #[trigger] before[s] == Some(c);
                    assert(is_preempted(m, before, t as int, c as int));
                } else {
                    assert(before[t as int] is Some);
                    assert(is_preempted(m, before, t as int, c as int));
                }
            }
        }
        proof {
            assert forall|s: int| 0 <= s < target_count && #[trigger] assignment[s] is Some implies lists(
                edges@.take(i + 1),
                s,
                assignment[s]->0 as int,
            ) by {
                let later = edges@.take(i + 1);
                if s == t && before[s] is None {
                    assert(later[i as int] == e);
                } else {
                    assert(before[s] == assignment[s]);
                    let k = choose|k: int|
                        0 <= k < edges@.take(i as int).len() && (#[trigger] edges@.take(
                            i as int,
                        )[k]).1 == s && edges@.take(i as int)[k].2 == before[s]->0;
                    assert(later[k] == edges@.take(i as int)[k]);
                }
            }
        }
        i += 1;
    }
    proof {
        assert forall|t: int, c: int| #[trigger]
            is_eligible(m, t, c) && assignment[t] != Some(c as usize) implies is_preempted(
            m,
            assignment@,
            t,
            c,
        ) by {
            assert(lists(edges@, t, c));
            let k = choose|k: int|
                0 <= k < edges.len() && (#[trigger] edges[k]).1 == t && edges[k].2 == c;
            assert(edges[k].1 == t);
        }
    }
    assignment
}

/// Whatever the strategy, a plan gives no window to two targets and keeps
/// eligible edges only.
pub proof fn law_plans_are_one_to_one(
    m: Seq<Seq<int>>,
    strategy: MatchingStrategy,
    a: Seq<Option<usize>>,
)
    requires
        rectangular(m),
        width(m) <= usize::MAX,
        is_plan(m, strategy, a),
    ensures
        one_to_one(m, a),
        keeps_eligible_edges(m, a),
{
    if strategy is Global {
        let cols = hungarian::assignment(m, order(m));
        assert forall|t: int| 0 <= t < a.len() && #[trigger] a[t] is Some implies a[t]->0 < width(m)
            && a[t]->0 == cols[t] && m[t][a[t]->0 as int] > 0 by {
            assert(0 <= cols[t] < order(m));
        }
        assert forall|t: int, s: int|
            0 <= t < s < a.len() && #[trigger] a[t] is Some && #[trigger] a[s] is Some implies a[t]
            != a[s] by {
            assert(cols[t] != cols[s]);
        }
    }
}

/// The partial assignment over all rows of the square.
spec fn spread(a: Seq<Option<usize>>, n: nat) -> Seq<Option<int>> {
    Seq::new(
        n,
        |t: int|
            if t < a.len() && a[t] is Some {
                Some(a[t]->0 as int)
            } else {
                None
            },
    )
}

spec fn partial(b: Seq<Option<int>>, n: nat) -> bool {
    &&& b.len() == n
    &&& forall|t: int| 0 <= t < n && #[trigger] b[t] is Some ==> 0 <= b[t]->0 < n
    &&& forall|t: int, s: int|
        0 <= t < s < n && #[trigger] b[t] is Some && #[trigger] b[s] is Some ==> b[t] != b[s]
}

spec fn takes(b: Seq<Option<int>>, c: int) -> bool {
    exists|t: int| 0 <= t < b.len() && #[trigger] b[t] == Some(c)
}

spec fn partial_total(m: Seq<Seq<int>>, b: Seq<Option<int>>) -> int
    decreases b.len(),
{
    if b.len() == 0 {
        0
    } else {
        partial_total(m, b.drop_last()) + match b.last() {
            Some(c) => hungarian::padded(m, b.len() - 1, c),
            None => 0,
        }
    }
}

spec fn gaps(b: Seq<Option<int>>) -> nat
    decreases b.len(),
{
    if b.len() == 0 {
        0
    } else {
        gaps(b.drop_last()) + (if b.last() is None {
            1nat
        } else {
            0nat
        })
    }
}

proof fn lemma_update_totals(m: Seq<Seq<int>>, b: Seq<Option<int>>, t: int, c: int)
    requires
        0 <= t < b.len(),
        b[t] is None,
    ensures
        partial_total(m, b.update(t, Some(c))) == partial_total(m, b) + hungarian::padded(m, t, c),
        gaps(b.update(t, Some(c))) + 1 == gaps(b),
    decreases b.len(),
{
    let u = b.update(t, Some(c));
    if t == b.len() - 1 {
        assert(u.drop_last() =~= b.drop_last());
    } else {
        assert(u.drop_last() =~= b.drop_last().update(t, Some(c)));
        lemma_update_totals(m, b.drop_last(), t, c);
    }
}

proof fn lemma_no_gap(b: Seq<Option<int>>, t: int)
    requires
        gaps(b) == 0,
        0 <= t < b.len(),
    ensures
        b[t] is Some,
    decreases b.len(),
{
    if t < b.len() - 1 {
        lemma_no_gap(b.drop_last(), t);
    }
}

proof fn lemma_some_gap(b: Seq<Option<int>>) -> (t: int)
    requires
        gaps(b) > 0,
    ensures
        0 <= t < b.len(),
        b[t] is None,
    decreases b.len(),
{
    if b.last() is None {
        b.len() - 1
    } else {
        lemma_some_gap(b.drop_last())
    }
}

/// A column that a partial assignment leaves free.
proof fn lemma_unassigned(b: Seq<Option<int>>, n: nat, gap: int) -> (c: int)
    requires
        partial(b, n),
        0 <= gap < n,
        b[gap] is None,
    ensures
        0 <= c < n,
        forall|t: int| 0 <= t < n ==> #[trigger] b[t] != Some(c),
{
    if forall|c: int| 0 <= c < n ==> takes(b, c) {
        let at = Seq::new(
            n,
            |c: int| choose|t: int| 0 <= t < n && #[trigger] b[t] == Some(c),
        );
        assert forall|c: int| 0 <= c < n implies 0 <= #[trigger] at[c] < n && b[at[c]] == Some(
            c,
        ) by {
            assert(takes(b, c));
        }
        let s = at.push(gap);
        assert forall|i: int, j: int|
            0 <= i < s.len() && 0 <= j < s.len() && i != j implies s[i] != s[j] by {
            if i < n {
                assert(b[at[i]] == Some(i));
            }
            if j < n {
                assert(b[at[j]] == Some(j));
            }
        }
        assert forall|i: int| 0 <= i < s.len() implies 0 <= #[trigger] s[i] < n by {
            if i < n {
                assert(0 <= at[i] < n);
            }
        }
        hungarian::lemma_pigeonhole(s, n as int);
        assert(false);
    }
    choose|c: int| 0 <= c < n && !takes(b, c)
}

/// A partial assignment extends to a perfect one; without negative entries
/// that costs nothing.
proof fn lemma_extend(m: Seq<Seq<int>>, b: Seq<Option<int>>, n: nat) -> (cols: Seq<int>)
    requires
        partial(b, n),
        forall|r: int, c: int| 0 <= #[trigger] hungarian::padded(m, r, c),
    ensures
        hungarian::is_perfect(cols, n),
        partial_total(m, b) <= hungarian::perfect_total(m, cols),
    decreases gaps(b),
{
    if gaps(b) == 0 {
        let cols = Seq::new(n, |t: int| b[t]->0);
        assert forall|t: int| 0 <= t < n implies 0 <= #[trigger] cols[t] < n && b[t] is Some by {
            lemma_no_gap(b, t);
        }
        assert forall|i: int, j: int| 0 <= i < n && 0 <= j < n && i != j implies cols[i]
            != cols[j] by {
            lemma_no_gap(b, i);
            lemma_no_gap(b, j);
            if i < j {
                assert(b[i] != b[j]);
            } else {
                assert(b[j] != b[i]);
            }
        }
        lemma_full_total(m, b, cols, n as int);
        assert(b.take(n as int) =~= b);
        assert(cols.take(n as int) =~= cols);
        cols
    } else {
        let t = lemma_some_gap(b);
        let c = lemma_unassigned(b, n, t);
        let u = b.update(t, Some(c));
        lemma_update_totals(m, b, t, c);
        assert forall|i: int, j: int|
            0 <= i < j < n && #[trigger] u[i] is Some && #[trigger] u[j] is Some implies u[i]
            != u[j] by {
            if i != t {
                assert(b[i] != Some(c));
            }
            if j != t {
                assert(b[j] != Some(c));
            }
        }
        assert(hungarian::padded(m, t, c) >= 0);
        lemma_extend(m, u, n)
    }
}

proof fn lemma_full_total(m: Seq<Seq<int>>, b: Seq<Option<int>>, cols: Seq<int>, k: int)
    requires
        b.len() == cols.len(),
        0 <= k <= b.len(),
        forall|t: int| 0 <= t < k ==> #[trigger] b[t] == Some(cols[t]),
    ensures
        partial_total(m, b.take(k)) == hungarian::perfect_total(m, cols.take(k)),
    decreases k,
{
    if k > 0 {
        lemma_full_total(m, b, cols, k - 1);
        assert(b.take(k).drop_last() =~= b.take(k - 1));
        assert(cols.take(k).drop_last() =~= cols.take(k - 1));
        assert(b[k - 1] == Some(cols[k - 1]));
    }
}

proof fn lemma_spread_total(m: Seq<Seq<int>>, a: Seq<Option<usize>>, n: nat, k: int)
    requires
        rectangular(m),
        one_to_one(m, a),
        m.len() <= n,
        0 <= k <= n,
    ensures
        partial_total(m, spread(a, n).take(k)) == total_score(
            m,
            a.take(if k <= a.len() { k } else { a.len() as int }),
        ),
    decreases k,
{
    let b = spread(a, n);
    if k > 0 {
        lemma_spread_total(m, a, n, k - 1);
        assert(b.take(k).drop_last() =~= b.take(k - 1));
        assert(b.take(k).last() == b[k - 1]);
        if k <= a.len() {
            assert(a.take(k).drop_last() =~= a.take(k - 1));
            assert(a.take(k).last() == a[k - 1]);
            assert(m[k - 1].len() == width(m));
        }
    }
}

/// The eligible part weighs as much as the whole when nothing is negative.
proof fn lemma_eligible_total(m: Seq<Seq<int>>, cols: Seq<int>, n: nat, k: int)
    requires
        rectangular(m),
        width(m) <= usize::MAX,
        hungarian::is_perfect(cols, n),
        m.len() <= n,
        0 <= k <= n,
        forall|r: int, c: int| 0 <= #[trigger] hungarian::padded(m, r, c),
    ensures
        hungarian::perfect_total(m, cols.take(k)) == total_score(
            m,
            eligible_part(m, cols).take(if k <= m.len() { k } else { m.len() as int }),
        ),
    decreases k,
{
    let a = eligible_part(m, cols);
    if k > 0 {
        lemma_eligible_total(m, cols, n, k - 1);
        assert(cols.take(k).drop_last() =~= cols.take(k - 1));
        assert(cols.take(k).last() == cols[k - 1]);
        assert(0 <= cols[k - 1] < n);
        assert(hungarian::padded(m, k - 1, cols[k - 1]) >= 0);
        if k <= m.len() {
            assert(a.take(k).drop_last() =~= a.take(k - 1));
            assert(a.take(k).last() == a[k - 1]);
            assert(m[k - 1].len() == width(m));
        }
    }
}

/// A global plan has the largest total score of all one-to-one plans, as long
/// as no score is negative.
pub proof fn law_global_plan_is_maximal(
    m: Seq<Seq<int>>,
    a: Seq<Option<usize>>,
    other: Seq<Option<usize>>,
)
    requires
        rectangular(m),
        width(m) <= usize::MAX,
        forall|t: int, c: int|
            0 <= t < m.len() && 0 <= c < width(m) ==> 0 <= #[trigger] m[t][c],
        is_plan(m, MatchingStrategy::Global, a),
        one_to_one(m, other),
    ensures
        total_score(m, other) <= total_score(m, a),
{
    let n = order(m);
    let cols = hungarian::assignment(m, n);
    assert forall|r: int, c: int| 0 <= #[trigger] hungarian::padded(m, r, c) by {
        if 0 <= r < m.len() && 0 <= c < m[r].len() {
            assert(m[r].len() == width(m));
            assert(0 <= m[r][c]);
        }
    }
    lemma_eligible_total(m, cols, n, n as int);
    assert(cols.take(n as int) =~= cols);
    assert(a.take(m.len() as int) =~= a);
    let b = spread(other, n);
    assert forall|i: int, j: int|
        0 <= i < j < n && #[trigger] b[i] is Some && #[trigger] b[j] is Some implies b[i]
        != b[j] by {
        assert(other[i] != other[j]);
    }
    lemma_spread_total(m, other, n, n as int);
    assert(b.take(n as int) =~= b);
    assert(other.take(other.len() as int) =~= other);
    let extended = lemma_extend(m, b, n);
    assert(hungarian::is_perfect(extended, n));
}

/// An edge that one greedy plan chooses, every greedy plan chooses.
proof fn lemma_greedy_agrees(
    m: Seq<Seq<int>>,
    a: Seq<Option<usize>>,
    b: Seq<Option<usize>>,
    top: int,
    t: int,
)
    requires
        is_greedy(m, a),
        is_greedy(m, b),
        forall|r: int, c: int| #[trigger] is_eligible(m, r, c) ==> m[r][c] <= top,
        0 <= t < a.len(),
        a[t] is Some,
    ensures
        b[t] == a[t],
    decreases top - m[t][a[t]->0 as int], t, a[t]->0,
{
    let c = a[t]->0 as int;
    assert(is_eligible(m, t, c));
    if b[t] != a[t] {
        let s = choose|s: int|
            0 <= s < b.len() && #[trigger] b[s] is Some && (s == t || b[s]->0 == c) && comes_first(
                m,
                s,
                b[s]->0 as int,
                t,
                c,
            );
        assert(is_eligible(m, s, b[s]->0 as int));
        lemma_greedy_agrees(m, b, a, top, s);
        if s < t {
            assert(a[s] != a[t]);
        } else if t < s {
            assert(a[t] != a[s]);
        }
        assert(false);
    }
}

proof fn lemma_top(m: Seq<Seq<int>>, k: int) -> (top: int)
    requires
        rectangular(m),
        0 <= k <= m.len(),
    ensures
        forall|r: int, c: int| #[trigger] is_eligible(m, r, c) && r < k ==> m[r][c] <= top,
    decreases k,
{
    if k == 0 {
        0
    } else {
        let rest = lemma_top(m, k - 1);
        let row = lemma_row_top(m, k - 1, width(m) as int);
        let top = if rest >= row {
            rest
        } else {
            row
        };
        assert forall|r: int, c: int| #[trigger] is_eligible(m, r, c) && r < k implies m[r][c]
            <= top by {
            if r == k - 1 {
                assert(m[k - 1][c] <= row);
            }
        }
        top
    }
}

proof fn lemma_row_top(m: Seq<Seq<int>>, r: int, k: int) -> (top: int)
    requires
        0 <= k,
    ensures
        forall|c: int| 0 <= c < k ==> #[trigger] m[r][c] <= top,
    decreases k,
{
    if k == 0 {
        0
    } else {
        let rest = lemma_row_top(m, r, k - 1);
        if rest >= m[r][k - 1] {
            rest
        } else {
            m[r][k - 1]
        }
    }
}

/// The greedy plan is determined by the scores alone.
pub proof fn law_greedy_plan_is_unique(
    m: Seq<Seq<int>>,
    a: Seq<Option<usize>>,
    b: Seq<Option<usize>>,
)
    requires
        rectangular(m),
        is_plan(m, MatchingStrategy::Greedy, a),
        is_plan(m, MatchingStrategy::Greedy, b),
    ensures
        a == b,
{
    let top = lemma_top(m, m.len() as int);
    assert forall|t: int| 0 <= t < a.len() implies a[t] == b[t] by {
        if a[t] is Some {
            lemma_greedy_agrees(m, a, b, top, t);
        } else if b[t] is Some {
            lemma_greedy_agrees(m, b, a, top, t);
        }
    }
    assert(a =~= b);
}

/// Whatever the strategy, a plan is determined by the scores alone: equal
/// scores give equal plans.
pub proof fn law_plans_are_deterministic(
    m: Seq<Seq<int>>,
    strategy: MatchingStrategy,
    a: Seq<Option<usize>>,
    b: Seq<Option<usize>>,
)
    requires
        rectangular(m),
        is_plan(m, strategy, a),
        is_plan(m, strategy, b),
    ensures
        a == b,
        strategy is Global ==> a == global_plan(m),
{
    if strategy is Greedy {
        law_greedy_plan_is_unique(m, a, b);
    }
}

/// The best eligible edge is always part of the greedy plan.
pub proof fn law_greedy_plan_takes_the_first_edge(
    m: Seq<Seq<int>>,
    a: Seq<Option<usize>>,
    t: int,
    c: int,
)
    requires
        rectangular(m),
        width(m) <= usize::MAX,
        is_plan(m, MatchingStrategy::Greedy, a),
        is_eligible(m, t, c),
        forall|s: int, d: int| #[trigger]
            is_eligible(m, s, d) && (s != t || d != c) ==> comes_first(m, t, c, s, d),
    ensures
        a[t] == Some(c as usize),
{
    if a[t] != Some(c as usize) {
        let s = choose|s: int|
            0 <= s < a.len() && #[trigger] a[s] is Some && (s == t || a[s]->0 == c) && comes_first(
                m,
                s,
                a[s]->0 as int,
                t,
                c,
            );
        assert(is_eligible(m, s, a[s]->0 as int));
    }
}

} // verus!
