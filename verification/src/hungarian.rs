//! Perfect assignments of largest weight in a square matrix.
//!
//! The solver is the primal-dual (Hungarian) method: it keeps a price for each
//! row and each column that never exceeds a cost, and adds one row at a time
//! along a path of edges whose cost equals the two prices.  Where several
//! assignments weigh most, the order in which columns are reached decides.

use vstd::prelude::*;

verus! {

/// Largest magnitude of a weight; the sums of prices the solver forms then
/// stay within 64 bits.
pub const WEIGHT_LIMIT: i64 = 0x400_0000_0000_0000;

/// Stands for a column that no row has reached yet.
const UNREACHED: i64 = 0x1fff_ffff_ffff_ffff;

/// The entry of a matrix, with zero outside it.
pub open spec fn padded(m: Seq<Seq<int>>, r: int, c: int) -> int {
    if 0 <= r < m.len() && 0 <= c < m[r].len() {
        m[r][c]
    } else {
        0
    }
}

/// `cols[r]` is the column of row `r`, and every column below `n` is taken
/// by exactly one row.
pub open spec fn is_perfect(cols: Seq<int>, n: nat) -> bool {
    &&& cols.len() == n
    &&& cols.no_duplicates()
    &&& forall|r: int| 0 <= r < n ==> 0 <= #[trigger] cols[r] < n
}

/// The weight of the first rows of an assignment.
pub open spec fn perfect_total(m: Seq<Seq<int>>, cols: Seq<int>) -> int
    decreases cols.len(),
{
    if cols.len() == 0 {
        0
    } else {
        perfect_total(m, cols.drop_last()) + padded(m, cols.len() - 1, cols.last())
    }
}

/// No perfect assignment of order `n` outweighs `cols`.
pub open spec fn is_optimal_perfect(m: Seq<Seq<int>>, n: nat, cols: Seq<int>) -> bool {
    &&& is_perfect(cols, n)
    &&& forall|other: Seq<int>| #[trigger]
        is_perfect(other, n) ==> perfect_total(m, other) <= perfect_total(m, cols)
}

// ── The assignment as a function of the weights ────────────────────────────
//
// Rows and columns are numbered from one; column zero stands for the row that
// is being added.

/// The matrix cut and filled up with zeros to a square of order `n`.
pub open spec fn square(m: Seq<Seq<int>>, n: nat) -> Seq<Seq<int>> {
    Seq::new(n, |r: int| Seq::new(n, |c: int| padded(m, r, c)))
}

/// What is left of the cost of an edge after the prices of its row and column.
pub open spec fn gap(m: Seq<Seq<int>>, u: Seq<int>, v: Seq<int>, r: int, j: int) -> int {
    -padded(m, r - 1, j - 1) - u[r] - v[j]
}

/// The place, among the columns that were reached, of the one whose row is
/// nearest to column `j`; the earliest of several.
pub open spec fn nearest_place(
    m: Seq<Seq<int>>,
    u: Seq<int>,
    v: Seq<int>,
    p: Seq<int>,
    order: Seq<int>,
    j: int,
) -> int
    decreases order.len(),
{
    if order.len() <= 1 {
        0
    } else {
        let before = nearest_place(m, u, v, p, order.drop_last(), j);
        if gap(m, u, v, p[order.last()], j) < gap(m, u, v, p[order[before]], j) {
            order.len() - 1
        } else {
            before
        }
    }
}

/// How near the rows in the columns that were reached come to column `j`.
pub open spec fn nearest_gap(
    m: Seq<Seq<int>>,
    u: Seq<int>,
    v: Seq<int>,
    p: Seq<int>,
    order: Seq<int>,
    j: int,
) -> int {
    gap(m, u, v, p[order[nearest_place(m, u, v, p, order, j)]], j)
}

/// The nearest of the columns up to `k` that were not reached, the first of
/// several; zero where there is none.
pub open spec fn next_upto(
    m: Seq<Seq<int>>,
    u: Seq<int>,
    v: Seq<int>,
    p: Seq<int>,
    order: Seq<int>,
    k: int,
) -> int
    decreases k,
{
    if k <= 0 {
        0
    } else {
        let before = next_upto(m, u, v, p, order, k - 1);
        if order.contains(k) {
            before
        } else if before == 0 || nearest_gap(m, u, v, p, order, k) < nearest_gap(
            m,
            u,
            v,
            p,
            order,
            before,
        ) {
            k
        } else {
            before
        }
    }
}

/// The search for a free column: the prices, the columns in the order in which
/// they were reached, and the place of the column each was reached from.
#[verifier::ext_equal]
pub ghost struct Search {
    pub u: Seq<int>,
    pub v: Seq<int>,
    pub order: Seq<int>,
    pub par: Seq<int>,
}

/// A row stands in one of the columns that were reached.
pub open spec fn stands_in(p: Seq<int>, order: Seq<int>, r: int) -> bool {
    exists|t: int| 0 <= t < order.len() && p[#[trigger] order[t]] == r
}

/// The search after the nearest column is reached: the prices of what was
/// reached move until nothing is left of the cost of the edge to it.
pub open spec fn grown(m: Seq<Seq<int>>, n: nat, p: Seq<int>, s: Search) -> Search {
    let next = next_upto(m, s.u, s.v, p, s.order, n as int);
    let delta = nearest_gap(m, s.u, s.v, p, s.order, next);
    Search {
        u: Seq::new(
            n + 1,
            |r: int|
                s.u[r] + if stands_in(p, s.order, r) {
                    delta
                } else {
                    0
                },
        ),
        v: Seq::new(
            n + 1,
            |j: int|
                s.v[j] - if j >= 1 && s.order.contains(j) {
                    delta
                } else {
                    0
                },
        ),
        order: s.order.push(next),
        par: s.par.push(nearest_place(m, s.u, s.v, p, s.order, next)),
    }
}

/// The search once a column without a row is reached.
pub open spec fn searched(m: Seq<Seq<int>>, n: nat, p: Seq<int>, s: Search) -> Search
    decreases n + 1 - s.order.len(),
{
    if s.order.len() > n || p[s.order.last()] == 0 {
        s
    } else {
        searched(m, n, p, grown(m, n, p, s))
    }
}

/// The rows of the columns after each column on the way from the one at place
/// `t` was handed the row of the column it was reached from.
pub open spec fn handed(p: Seq<int>, order: Seq<int>, par: Seq<int>, t: int) -> Seq<int>
    decreases t,
{
    if t <= 0 || !(0 <= par[t] < t) {
        p
    } else {
        handed(p.update(order[t], p[order[par[t]]]), order, par, par[t])
    }
}

/// The prices, and the row of each column.
#[verifier::ext_equal]
pub ghost struct Solver {
    pub u: Seq<int>,
    pub v: Seq<int>,
    pub p: Seq<int>,
}

/// The solver after some rows were added.
pub open spec fn rows_added(m: Seq<Seq<int>>, n: nat, rows: nat) -> Solver
    decreases rows,
{
    if rows == 0 {
        let zeros = Seq::new(n + 1, |k: int| 0int);
        Solver { u: zeros, v: zeros, p: zeros }
    } else {
        let before = rows_added(m, n, (rows - 1) as nat);
        let p = before.p.update(0, rows as int);
        let s = searched(
            m,
            n,
            p,
            Search { u: before.u, v: before.v, order: seq![0int], par: seq![0int] },
        );
        Solver { u: s.u, v: s.v, p: handed(p, s.order, s.par, s.order.len() - 1) }
    }
}

/// The column of each row in the perfect assignment that the method gives for
/// a matrix, rows and columns numbered from zero.
pub open spec fn assignment(m: Seq<Seq<int>>, n: nat) -> Seq<int> {
    let p = rows_added(square(m, n), n, n).p;
    Seq::new(n, |r: int| p.skip(1).index_of(r + 1))
}

// ── Optimality ─────────────────────────────────────────────────────────────

/// Distinct numbers below `n` are at most `n` many.
pub proof fn lemma_pigeonhole(s: Seq<int>, n: int)
    requires
        s.no_duplicates(),
        n >= 0,
        forall|i: int| 0 <= i < s.len() ==> 0 <= #[trigger] s[i] < n,
    ensures
        s.len() <= n,
{
    s.unique_seq_to_set();
    let range = vstd::set_lib::set_int_range(0, n);
    vstd::set_lib::lemma_int_range(0, n);
    assert(s.to_set().subset_of(range)) by {
        assert forall|x: int| s.to_set().contains(x) implies range.contains(x) by {
            let i = choose|i: int| 0 <= i < s.len() && s[i] == x;
            assert(0 <= s[i] < n);
        }
    }
    vstd::set_lib::lemma_len_subset(s.to_set(), range);
}

spec fn sum(s: Seq<int>) -> int
    decreases s.len(),
{
    if s.len() == 0 {
        0
    } else {
        sum(s.drop_last()) + s.last()
    }
}

proof fn lemma_sum_remove(s: Seq<int>, k: int)
    requires
        0 <= k < s.len(),
    ensures
        sum(s.remove(k)) == sum(s) - s[k],
    decreases s.len(),
{
    if k == s.len() - 1 {
        assert(s.remove(k) =~= s.drop_last());
    } else {
        lemma_sum_remove(s.drop_last(), k);
        assert(s.remove(k).drop_last() =~= s.drop_last().remove(k));
        assert(s.remove(k).last() == s.last());
    }
}

spec fn pick(f: Seq<int>, cols: Seq<int>) -> Seq<int> {
    Seq::new(cols.len(), |r: int| f[cols[r]])
}

/// Summing over a permutation of the indices gives the same sum.
proof fn lemma_sum_permuted(f: Seq<int>, cols: Seq<int>)
    requires
        is_perfect(cols, f.len()),
    ensures
        sum(pick(f, cols)) == sum(f),
    decreases f.len(),
{
    let n = f.len() as int;
    if n > 0 {
        if !cols.contains(n - 1) {
            assert forall|i: int| 0 <= i < cols.len() implies 0 <= #[trigger] cols[i] < n - 1 by {
                assert(cols[i] != n - 1);
            }
            lemma_pigeonhole(cols, n - 1);
            assert(false);
        }
        let k = choose|k: int| 0 <= k < cols.len() && cols[k] == n - 1;
        let rest = cols.remove(k);
        assert forall|i: int| 0 <= i < rest.len() implies 0 <= #[trigger] rest[i] < n - 1 by {
            let i2 = if i < k { i } else { i + 1 };
            assert(rest[i] == cols[i2]);
            assert(cols[i2] != cols[k]);
        }
        assert(rest.no_duplicates());
        lemma_sum_permuted(f.drop_last(), rest);
        assert(pick(f, cols).remove(k) =~= pick(f.drop_last(), rest));
        lemma_sum_remove(pick(f, cols), k);
    }
}

spec fn ints(s: Seq<i64>) -> Seq<int> {
    s.map_values(|x: i64| x as int)
}

spec fn whole(s: Seq<usize>) -> Seq<int> {
    s.map_values(|x: usize| x as int)
}

/// What is left of the cost of an edge after the two prices.
spec fn slack(m: Seq<Seq<int>>, u: Seq<i64>, v: Seq<i64>, r: int, j: int) -> int {
    -padded(m, r - 1, j - 1) - u[r] - v[j]
}

/// The rows up to `rows` stand in the columns other than `hole`, one each;
/// `q` gives the column of a row.
spec fn matched(p: Seq<usize>, q: Seq<int>, n: int, rows: int, hole: int) -> bool {
    &&& p.len() == n + 1
    &&& q.len() == n + 1
    &&& forall|r: int|
        1 <= r <= rows ==> {
            &&& 0 <= #[trigger] q[r] <= n
            &&& q[r] != hole
            &&& p[q[r]] == r
        }
    &&& forall|k: int|
        0 <= k <= n && k != hole && #[trigger] p[k] != 0 ==> {
            &&& 1 <= p[k] <= rows
            &&& q[p[k] as int] == k
        }
}

spec fn feasible(m: Seq<Seq<int>>, n: int, u: Seq<i64>, v: Seq<i64>, rows: int) -> bool {
    forall|r: int, j: int|
        1 <= r <= rows && 1 <= j <= n ==> 0 <= #[trigger] slack(m, u, v, r, j)
}

spec fn tight(m: Seq<Seq<int>>, u: Seq<i64>, v: Seq<i64>, q: Seq<int>, rows: int) -> bool {
    forall|r: int|
        1 <= r <= rows && q[r] >= 1 ==> slack(m, u, v, r, #[trigger] q[r]) == 0
}

spec fn priced(n: int, u: Seq<i64>, v: Seq<i64>, p: Seq<usize>, rows: int) -> bool {
    &&& u.len() == n + 1
    &&& v.len() == n + 1
    &&& forall|j: int| 1 <= j <= n ==> #[trigger] v[j] <= 0
    &&& forall|j: int| 1 <= j <= n && #[trigger] p[j] == 0 ==> v[j] == 0
    &&& forall|r: int| rows < r <= n ==> #[trigger] u[r] == 0
}

spec fn limited(m: Seq<Seq<int>>) -> bool {
    forall|r: int, c: int|
        -WEIGHT_LIMIT <= #[trigger] padded(m, r, c) <= WEIGHT_LIMIT
}

spec fn prices_limited(n: int, u: Seq<i64>, v: Seq<i64>, rows: int) -> bool {
    &&& forall|r: int| 1 <= r <= rows ==> -WEIGHT_LIMIT <= #[trigger] u[r] <= WEIGHT_LIMIT
    &&& forall|j: int| 1 <= j <= n ==> -2 * WEIGHT_LIMIT <= #[trigger] v[j] <= 0
}

/// The columns reached while a row is added, in the order they were reached.
/// `par[t]` is the place of the column from which the one at place `t` was
/// reached, over an edge without slack.
spec fn tree(
    m: Seq<Seq<int>>,
    n: int,
    u: Seq<i64>,
    v: Seq<i64>,
    p: Seq<usize>,
    way: Seq<usize>,
    order: Seq<int>,
    par: Seq<int>,
) -> bool {
    &&& order.len() >= 1
    &&& par.len() == order.len()
    &&& way.len() == n + 1
    &&& order[0] == 0
    &&& order.no_duplicates()
    &&& forall|t: int| 0 <= t < order.len() ==> 0 <= #[trigger] order[t] <= n
    &&& forall|t: int|
        1 <= t < order.len() ==> {
            &&& 0 <= #[trigger] par[t] < t
            &&& order[par[t]] == way[order[t]]
            &&& slack(m, u, v, p[order[par[t]]] as int, order[t]) == 0
        }
    &&& forall|t: int| 0 <= t < order.len() - 1 ==> p[#[trigger] order[t]] != 0
}

/// A column that no row holds, while a row is still to be added.
proof fn lemma_free_column(p: Seq<usize>, q: Seq<int>, n: int, rows: int) -> (j: int)
    requires
        matched(p, q, n, rows + 1, -1),
        0 <= rows < n,
        q[rows + 1] == 0,
    ensures
        1 <= j <= n,
        p[j] == 0,
{
    if forall|j: int| 1 <= j <= n ==> p[j] != 0 {
        let s = Seq::new(n as nat, |i: int| p[i + 1] - 1);
        assert forall|i: int| 0 <= i < s.len() implies 0 <= #[trigger] s[i] < rows by {
            assert(p[i + 1] != 0);
            assert(q[p[i + 1] as int] == i + 1);
        }
        assert forall|i: int, k: int| 0 <= i < s.len() && 0 <= k < s.len() && i != k implies s[i]
            != s[k] by {
            assert(q[p[i + 1] as int] == i + 1);
            assert(q[p[k + 1] as int] == k + 1);
        }
        lemma_pigeonhole(s, rows);
        assert(false);
    }
    choose|j: int| 1 <= j <= n && p[j] == 0
}

/// With a free column left, the prices stay within a few weights.
proof fn lemma_prices_limited(
    m: Seq<Seq<int>>,
    n: int,
    u: Seq<i64>,
    v: Seq<i64>,
    p: Seq<usize>,
    q: Seq<int>,
    rows: int,
    done: int,
    free: int,
)
    requires
        matched(p, q, n, rows, -1),
        1 <= rows <= n,
        done == rows || done == rows - 1,
        done < rows ==> u[rows] == 0 && q[rows] == 0,
        limited(m),
        feasible(m, n, u, v, done),
        tight(m, u, v, q, rows),
        priced(n, u, v, p, rows),
        1 <= free <= n,
        p[free] == 0,
        forall|r: int| 1 <= r <= rows && q[r] < 1 ==> u[r] >= -WEIGHT_LIMIT,
    ensures
        prices_limited(n, u, v, rows),
{
    assert forall|r: int| 1 <= r <= rows implies -WEIGHT_LIMIT <= #[trigger] u[r]
        <= WEIGHT_LIMIT by {
        assert(r <= done ==> slack(m, u, v, r, free) >= 0);
        assert(-WEIGHT_LIMIT <= padded(m, r - 1, free - 1));
        assert(0 <= q[r] <= n);
        if q[r] >= 1 {
            assert(slack(m, u, v, r, q[r]) == 0);
            assert(padded(m, r - 1, q[r] - 1) <= WEIGHT_LIMIT);
        }
    }
    assert forall|j: int| 1 <= j <= n implies -2 * WEIGHT_LIMIT <= #[trigger] v[j] <= 0 by {
        if p[j] != 0 {
            let r = p[j] as int;
            assert(q[r] == j);
            assert(slack(m, u, v, r, q[r]) == 0);
            assert(padded(m, r - 1, j - 1) <= WEIGHT_LIMIT);
            assert(u[r] <= WEIGHT_LIMIT);
        }
    }
}

spec fn entry(weights: Seq<Vec<i64>>, a: int, b: int) -> int {
    weights[a]@[b] as int
}

/// `weights` is the square of order `n` that pads `m`.
spec fn holds(weights: Seq<Vec<i64>>, n: int, m: Seq<Seq<int>>) -> bool {
    &&& weights.len() == n
    &&& forall|a: int| 0 <= a < n ==> (#[trigger] weights[a])@.len() == n
    &&& forall|a: int, b: int|
        0 <= a < n && 0 <= b < n ==> #[trigger] entry(weights, a, b) == padded(m, a, b)
}

/// `used` marks the columns of `order`.
spec fn marks(used: Seq<bool>, n: int, order: Seq<int>) -> bool {
    &&& used.len() == n + 1
    &&& forall|k: int| 0 <= k <= n ==> (#[trigger] used[k] <==> order.contains(k))
}

/// `d` is the least slack between column `j` and the rows in the columns of
/// `order`, and `w` is the first column it comes from.
spec fn nearest(
    m: Seq<Seq<int>>,
    u: Seq<i64>,
    v: Seq<i64>,
    p: Seq<usize>,
    order: Seq<int>,
    j: int,
    w: int,
    d: int,
) -> bool {
    &&& order.contains(w)
    &&& w == order[nearest_place(m, ints(u), ints(v), whole(p), order, j)]
    &&& d == slack(m, u, v, p[w] as int, j)
    &&& forall|t: int|
        0 <= t < order.len() ==> d <= slack(m, u, v, p[#[trigger] order[t]] as int, j)
}

/// For each unmarked column the least slack over the rows in marked columns,
/// and the marked column it comes from.
spec fn reach(
    m: Seq<Seq<int>>,
    n: int,
    u: Seq<i64>,
    v: Seq<i64>,
    p: Seq<usize>,
    way: Seq<usize>,
    minv: Seq<i64>,
    order: Seq<int>,
) -> bool {
    &&& minv.len() == n + 1
    &&& way.len() == n + 1
    &&& forall|j: int|
        1 <= j <= n && !order.contains(j) ==> #[trigger] nearest(
            m,
            u,
            v,
            p,
            order,
            j,
            way[j] as int,
            minv[j] as int,
        )
}

/// The nearest column is one that was reached.
proof fn lemma_nearest_place(
    m: Seq<Seq<int>>,
    u: Seq<int>,
    v: Seq<int>,
    p: Seq<int>,
    order: Seq<int>,
    j: int,
)
    requires
        order.len() >= 1,
    ensures
        0 <= nearest_place(m, u, v, p, order, j) < order.len(),
    decreases order.len(),
{
    if order.len() > 1 {
        lemma_nearest_place(m, u, v, p, order.drop_last(), j);
    }
}

/// The columns and the rows in them are within a square.
spec fn is_within(n: int, u: Seq<i64>, v: Seq<i64>, p: Seq<usize>, order: Seq<int>) -> bool {
    &&& u.len() == n + 1
    &&& v.len() == n + 1
    &&& p.len() == n + 1
    &&& order.len() >= 1
    &&& forall|t: int|
        0 <= t < order.len() ==> 0 <= #[trigger] order[t] <= n && 0 <= p[order[t]] <= n
}

proof fn lemma_gap_is_slack(
    m: Seq<Seq<int>>,
    u: Seq<i64>,
    v: Seq<i64>,
    p: Seq<usize>,
    order: Seq<int>,
    n: int,
    j: int,
)
    requires
        is_within(n, u, v, p, order),
        0 <= j <= n,
    ensures
        ({
            let t = nearest_place(m, ints(u), ints(v), whole(p), order, j);
            &&& 0 <= t < order.len()
            &&& nearest_gap(m, ints(u), ints(v), whole(p), order, j) == slack(
                m,
                u,
                v,
                p[order[t]] as int,
                j,
            )
        }),
{
    lemma_nearest_place(m, ints(u), ints(v), whole(p), order, j);
    let t = nearest_place(m, ints(u), ints(v), whole(p), order, j);
    assert(0 <= order[t] <= n);
}

/// The nearest column after one more was reached.
proof fn lemma_step_nearest(
    m: Seq<Seq<int>>,
    u: Seq<i64>,
    v: Seq<i64>,
    p: Seq<usize>,
    order: Seq<int>,
    n: int,
    j: int,
    w: int,
    d: int,
    cost: int,
)
    requires
        is_within(n, u, v, p, order),
        0 <= j <= n,
        cost == slack(m, u, v, p[order.last()] as int, j),
        order.len() > 1 ==> nearest(m, u, v, p, order.drop_last(), j, w, d),
    ensures
        order[nearest_place(m, ints(u), ints(v), whole(p), order, j)] == if order.len() == 1 || cost
            < d {
            order.last()
        } else {
            w
        },
{
    if order.len() > 1 {
        let before = order.drop_last();
        assert forall|t: int| 0 <= t < before.len() implies 0 <= #[trigger] before[t] <= n && 0
            <= p[before[t]] <= n by {
            assert(before[t] == order[t]);
        }
        lemma_gap_is_slack(m, u, v, p, before, n, j);
        let b = nearest_place(m, ints(u), ints(v), whole(p), before, j);
        assert(before[b] == order[b]);
        assert(order[order.len() - 1] == order.last());
        assert(0 <= order[order.len() - 1] <= n);
    }
}

/// The nearest column stays the nearest where all gaps move alike.
proof fn lemma_nearest_stays(
    m: Seq<Seq<int>>,
    u0: Seq<int>,
    v0: Seq<int>,
    u1: Seq<int>,
    v1: Seq<int>,
    p: Seq<int>,
    order: Seq<int>,
    j: int,
    delta: int,
)
    requires
        order.len() >= 1,
        forall|t: int|
            0 <= t < order.len() ==> gap(m, u1, v1, p[#[trigger] order[t]], j) == gap(
                m,
                u0,
                v0,
                p[order[t]],
                j,
            ) - delta,
    ensures
        nearest_place(m, u1, v1, p, order, j) == nearest_place(m, u0, v0, p, order, j),
    decreases order.len(),
{
    if order.len() > 1 {
        let before = order.drop_last();
        assert forall|t: int| 0 <= t < before.len() implies gap(
            m,
            u1,
            v1,
            p[#[trigger] before[t]],
            j,
        ) == gap(m, u0, v0, p[before[t]], j) - delta by {
            assert(before[t] == order[t]);
        }
        lemma_nearest_stays(m, u0, v0, u1, v1, p, before, j, delta);
        lemma_nearest_place(m, u0, v0, p, before, j);
        let b = nearest_place(m, u0, v0, p, before, j);
        assert(order[b] == before[b]);
        assert(order[order.len() - 1] == order.last());
    }
}

/// Takes the row in `column` into account and finds the nearest unmarked
/// column.
fn scan(
    weights: &Vec<Vec<i64>>,
    size: usize,
    column: usize,
    p: &Vec<usize>,
    u: &Vec<i64>,
    v: &Vec<i64>,
    used: &Vec<bool>,
    way: &mut Vec<usize>,
    minv: &mut Vec<i64>,
    Ghost(m): Ghost<Seq<Seq<int>>>,
    Ghost(q): Ghost<Seq<int>>,
    Ghost(row): Ghost<int>,
    Ghost(order): Ghost<Seq<int>>,
    Ghost(free): Ghost<int>,
) -> (r: (i64, usize))
    requires
        0 < size < usize::MAX,
        holds(weights@, size as int, m),
        limited(m),
        1 <= row <= size,
        matched(p@, q, size as int, row, -1),
        u.len() == size + 1,
        v.len() == size + 1,
        prices_limited(size as int, u@, v@, row),
        order.len() >= 1,
        order.last() == column,
        forall|t: int| 0 <= t < order.len() ==> 0 <= #[trigger] order[t] <= size,
        forall|t: int| 0 <= t < order.len() ==> p[#[trigger] order[t]] != 0,
        marks(used@, size as int, order),
        old(way).len() == size + 1,
        old(minv).len() == size + 1,
        order.len() == 1 ==> forall|j: int| 1 <= j <= size ==> #[trigger] old(minv)[j] == UNREACHED,
        order.len() > 1 ==> reach(
            m,
            size as int,
            u@,
            v@,
            p@,
            old(way)@,
            old(minv)@,
            order.drop_last(),
        ),
        order.no_duplicates(),
        1 <= free <= size,
        !used[free],
    ensures
        reach(m, size as int, u@, v@, p@, final(way)@, final(minv)@, order),
        1 <= r.1 <= size,
        r.1 == next_upto(m, ints(u@), ints(v@), whole(p@), order, size as int),
        !used[r.1 as int],
        r.0 == final(minv)[r.1 as int],
        forall|j: int| 1 <= j <= size && !used[j] ==> r.0 <= #[trigger] final(minv)[j],
        forall|j: int| 0 <= j <= size && used[j] ==> #[trigger] final(way)[j] == old(way)[j],
        forall|j: int| 0 <= j <= size && used[j] ==> #[trigger] final(minv)[j] == old(minv)[j],
{
    let current_row = p[column];
    let mut delta: i64 = UNREACHED;
    let mut next_column: usize = 0;
    let mut j: usize = 1;
    let ghost before = order.drop_last();
    proof {
        assert(p[order[order.len() - 1]] != 0);
        assert(1 <= current_row <= row);
        assert forall|k: int| order.contains(k) <==> before.contains(k) || k == column by {
            if order.contains(k) {
                let t = choose|t: int| 0 <= t < order.len() && order[t] == k;
                if t < order.len() - 1 {
                    assert(before[t] == k);
                }
            }
            if before.contains(k) {
                let t = choose|t: int| 0 <= t < before.len() && before[t] == k;
                assert(order[t] == k);
            }
            if k == column {
                assert(order[order.len() - 1] == k);
            }
        }
        assert(order.contains(column as int));
        assert forall|t: int| 0 <= t < order.len() implies 0 <= #[trigger] order[t] <= size && 0
            <= p[order[t]] <= size by {
            assert(p[order[t]] != 0);
        }
    }
    while j <= size
        invariant
            0 < size < usize::MAX,
            1 <= j <= size + 1,
            is_within(size as int, u@, v@, p@, order),
            holds(weights@, size as int, m),
            limited(m),
            1 <= current_row <= row <= size,
            current_row == p[column as int],
            0 <= column <= size,
            p.len() == size + 1,
            u.len() == size + 1,
            v.len() == size + 1,
            prices_limited(size as int, u@, v@, row),
            matched(p@, q, size as int, row, -1),
            order.len() >= 1,
            order.last() == column,
            before == order.drop_last(),
            forall|t: int| 0 <= t < order.len() ==> 0 <= #[trigger] order[t] <= size,
            forall|t: int| 0 <= t < order.len() ==> p[#[trigger] order[t]] != 0,
            marks(used@, size as int, order),
            order.contains(column as int),
            forall|k: int| #[trigger]
                order.contains(k) <==> before.contains(k) || k == column,
            old(way).len() == size + 1,
            old(minv).len() == size + 1,
            way.len() == size + 1,
            minv.len() == size + 1,
            order.len() == 1 ==> forall|k: int|
                1 <= k <= size ==> #[trigger] old(minv)[k] == UNREACHED,
            order.len() > 1 ==> reach(
                m,
                size as int,
                u@,
                v@,
                p@,
                old(way)@,
                old(minv)@,
                before,
            ),
            forall|k: int| j <= k <= size ==> #[trigger] minv[k] == old(minv)[k],
            forall|k: int| j <= k <= size ==> #[trigger] way[k] == old(way)[k],
            forall|k: int| 0 <= k <= size && used[k] ==> #[trigger] minv[k] == old(minv)[k],
            forall|k: int| 0 <= k <= size && used[k] ==> #[trigger] way[k] == old(way)[k],
            forall|k: int|
                1 <= k < j && !used[k] ==> #[trigger] nearest(
                    m,
                    u@,
                    v@,
                    p@,
                    order,
                    k,
                    way[k] as int,
                    minv[k] as int,
                ),
            forall|k: int| 1 <= k < j && !used[k] ==> #[trigger] minv[k] < UNREACHED,
            forall|k: int| 1 <= k < j && !used[k] ==> delta <= #[trigger] minv[k],
            next_column == next_upto(m, ints(u@), ints(v@), whole(p@), order, j - 1),
            next_column == 0 ==> delta == UNREACHED && forall|k: int|
                1 <= k < j ==> #[trigger] used[k],
            next_column != 0 ==> {
                &&& 1 <= next_column < j
                &&& !used[next_column as int]
                &&& delta == minv[next_column as int]
            },
        decreases size + 1 - j,
    {
        if !used[j] {
            let ghost way0 = way@;
            let ghost minv0 = minv@;
            proof {
                assert(entry(weights@, current_row - 1, j - 1) == padded(
                    m,
                    current_row - 1,
                    j - 1,
                ));
                assert(-WEIGHT_LIMIT <= padded(m, current_row - 1, j - 1) <= WEIGHT_LIMIT);
                assert(-WEIGHT_LIMIT <= u[current_row as int] <= WEIGHT_LIMIT);
                assert(-2 * WEIGHT_LIMIT <= v[j as int] <= 0);
            }
            let cost: i64 = -weights[current_row - 1][j - 1] - u[current_row] - v[j];
            assert(cost == slack(m, u@, v@, current_row as int, j as int));
            if cost < minv[j] {
                minv.set(j, cost);
                way.set(j, column);
            }
            proof {
                if order.len() == 1 {
                    assert(minv0[j as int] == UNREACHED);
                } else {
                    assert(!before.contains(j as int));
                    assert(nearest(
                        m,
                        u@,
                        v@,
                        p@,
                        before,
                        j as int,
                        way0[j as int] as int,
                        minv0[j as int] as int,
                    ));
                    let t0 = choose|t: int| 0 <= t < before.len() && before[t] == way0[j as int];
                    let r0 = p[order[t0]] as int;
                    assert(p[order[t0]] != 0);
                    assert(-WEIGHT_LIMIT <= u[r0] <= WEIGHT_LIMIT);
                    assert(-WEIGHT_LIMIT <= padded(m, r0 - 1, j - 1) <= WEIGHT_LIMIT);
                    assert(minv0[j as int] < UNREACHED);
                }
                lemma_step_nearest(
                    m,
                    u@,
                    v@,
                    p@,
                    order,
                    size as int,
                    j as int,
                    way0[j as int] as int,
                    minv0[j as int] as int,
                    cost as int,
                );
                assert(way[j as int] == order[nearest_place(
                    m,
                    ints(u@),
                    ints(v@),
                    whole(p@),
                    order,
                    j as int,
                )]);
                assert(order.contains(way0[j as int] as int) || way[j as int] == column);
                assert(order.contains(way[j as int] as int));
                assert(minv[j as int] == slack(
                    m,
                    u@,
                    v@,
                    p[way[j as int] as int] as int,
                    j as int,
                ));
                assert forall|t: int| 0 <= t < order.len() implies minv[j as int] <= slack(
                    m,
                    u@,
                    v@,
                    p[#[trigger] order[t]] as int,
                    j as int,
                ) by {
                    if t < order.len() - 1 {
                        assert(before[t] == order[t]);
                    }
                }
            }
            proof {
                assert forall|k: int| 1 <= k < j + 1 && !used[k] implies #[trigger] nearest(
                    m,
                    u@,
                    v@,
                    p@,
                    order,
                    k,
                    way[k] as int,
                    minv[k] as int,
                ) by {
                    if k < j {
                        assert(way[k] == way0[k] && minv[k] == minv0[k]);
                        assert(nearest(
                            m,
                            u@,
                            v@,
                            p@,
                            order,
                            k,
                            way0[k] as int,
                            minv0[k] as int,
                        ));
                    }
                }
            }
            proof {
                assert(nearest(
                    m,
                    u@,
                    v@,
                    p@,
                    order,
                    j as int,
                    way[j as int] as int,
                    minv[j as int] as int,
                ));
                lemma_gap_is_slack(m, u@, v@, p@, order, size as int, j as int);
                if next_column != 0 {
                    lemma_gap_is_slack(m, u@, v@, p@, order, size as int, next_column as int);
                    assert(nearest(
                        m,
                        u@,
                        v@,
                        p@,
                        order,
                        next_column as int,
                        way[next_column as int] as int,
                        minv[next_column as int] as int,
                    ));
                }
            }
            if minv[j] < delta {
                delta = minv[j];
                next_column = j;
            }
        }
        j += 1;
    }
    proof {
        assert(used[free] == false);
    }
    (delta, next_column)
}

/// Moves the prices of the marked rows and columns by `delta`.
fn shift(
    size: usize,
    delta: i64,
    p: &Vec<usize>,
    used: &Vec<bool>,
    u: &mut Vec<i64>,
    v: &mut Vec<i64>,
    minv: &mut Vec<i64>,
    Ghost(q): Ghost<Seq<int>>,
    Ghost(row): Ghost<int>,
    Ghost(order): Ghost<Seq<int>>,
)
    requires
        0 < size < usize::MAX,
        1 <= row <= size,
        matched(p@, q, size as int, row, -1),
        marks(used@, size as int, order),
        forall|k: int| 0 <= k <= size && used[k] ==> #[trigger] p[k] != 0,
        old(u).len() == size + 1,
        old(v).len() == size + 1,
        old(minv).len() == size + 1,
        prices_limited(size as int, old(u)@, old(v)@, row),
        -4 * WEIGHT_LIMIT <= delta <= 4 * WEIGHT_LIMIT,
        forall|j: int|
            1 <= j <= size && !used[j] ==> -4 * WEIGHT_LIMIT <= #[trigger] old(minv)[j] <= 4
                * WEIGHT_LIMIT,
    ensures
        final(u).len() == size + 1,
        final(v).len() == size + 1,
        final(minv).len() == size + 1,
        forall|r: int|
            1 <= r <= row ==> #[trigger] final(u)[r] == old(u)[r] + (if used[q[r]] {
                delta as int
            } else {
                0
            }),
        forall|r: int| row < r <= size ==> #[trigger] final(u)[r] == old(u)[r],
        final(u)[0] == old(u)[0],
        final(v)[0] == old(v)[0],
        forall|j: int|
            1 <= j <= size ==> #[trigger] final(v)[j] == old(v)[j] - (if used[j] {
                delta as int
            } else {
                0
            }),
        forall|j: int|
            1 <= j <= size && !used[j] ==> #[trigger] final(minv)[j] == old(minv)[j] - delta,
{
    let mut k: usize = 0;
    while k <= size
        invariant
            0 < size < usize::MAX,
            0 <= k <= size + 1,
            1 <= row <= size,
            matched(p@, q, size as int, row, -1),
            used.len() == size + 1,
            forall|k: int| 0 <= k <= size && used[k] ==> #[trigger] p[k] != 0,
            old(u).len() == size + 1,
            old(v).len() == size + 1,
            old(minv).len() == size + 1,
            u.len() == size + 1,
            v.len() == size + 1,
            minv.len() == size + 1,
            prices_limited(size as int, old(u)@, old(v)@, row),
            -4 * WEIGHT_LIMIT <= delta <= 4 * WEIGHT_LIMIT,
            forall|j: int|
                1 <= j <= size && !used[j] ==> -4 * WEIGHT_LIMIT <= #[trigger] old(minv)[j] <= 4
                    * WEIGHT_LIMIT,
            forall|r: int|
                1 <= r <= row ==> #[trigger] u[r] == old(u)[r] + (if used[q[r]] && q[r] < k {
                    delta as int
                } else {
                    0
                }),
            forall|r: int| row < r <= size ==> #[trigger] u[r] == old(u)[r],
            u[0] == old(u)[0],
            v[0] == old(v)[0],
            forall|j: int|
                1 <= j <= size ==> #[trigger] v[j] == old(v)[j] - (if used[j] && j < k {
                    delta as int
                } else {
                    0
                }),
            forall|j: int|
                1 <= j <= size && !used[j] ==> #[trigger] minv[j] == old(minv)[j] - (if j < k {
                    delta as int
                } else {
                    0
                }),
        decreases size + 1 - k,
    {
        if used[k] {
            let r: usize = p[k];
            proof {
                assert(p[k as int] != 0);
                assert(q[r as int] == k);
                assert(u[r as int] == old(u)[r as int]);
                assert(-WEIGHT_LIMIT <= old(u)[r as int] <= WEIGHT_LIMIT);
            }
            let ghost u0 = u@;
            let raised: i64 = u[r] + delta;
            u.set(r, raised);
            proof {
                assert forall|s: int| 1 <= s <= row implies #[trigger] u[s] == old(u)[s] + (
                if used[q[s]] && q[s] < k + 1 {
                    delta as int
                } else {
                    0
                }) by {
                    assert(p[q[s]] == s);
                    if s != r {
                        assert(u[s] == u0[s]);
                        assert(q[s] != k);
                    }
                }
            }
            if k > 0 {
                assert(-2 * WEIGHT_LIMIT <= old(v)[k as int] <= 0);
                let lowered: i64 = v[k] - delta;
                v.set(k, lowered);
            }
        } else {
            proof {
                assert forall|s: int| 1 <= s <= row implies #[trigger] u[s] == old(u)[s] + (
                if used[q[s]] && q[s] < k + 1 {
                    delta as int
                } else {
                    0
                }) by {
                    assert(p[q[s]] == s);
                }
            }
            if k > 0 {
                assert(-4 * WEIGHT_LIMIT <= old(minv)[k as int] <= 4 * WEIGHT_LIMIT);
                let lowered: i64 = minv[k] - delta;
                minv.set(k, lowered);
            }
        }
        k += 1;
    }
}

/// The state of the search for a row after the prices moved.
proof fn lemma_shift(
    m: Seq<Seq<int>>,
    n: int,
    row: int,
    u0: Seq<i64>,
    v0: Seq<i64>,
    u1: Seq<i64>,
    v1: Seq<i64>,
    p: Seq<usize>,
    q: Seq<int>,
    way: Seq<usize>,
    minv0: Seq<i64>,
    minv1: Seq<i64>,
    used: Seq<bool>,
    order: Seq<int>,
    par: Seq<int>,
    delta: int,
    next: int,
) -> (grown: Seq<int>)
    requires
        1 <= row <= n,
        limited(m),
        matched(p, q, n, row, -1),
        q[row] == 0,
        tree(m, n, u0, v0, p, way, order, par),
        p[order.last()] != 0,
        marks(used, n, order),
        reach(m, n, u0, v0, p, way, minv0, order),
        feasible(m, n, u0, v0, if order.len() == 1 { row - 1 } else { row }),
        tight(m, u0, v0, q, row),
        priced(n, u0, v0, p, row),
        order.len() == 1 ==> u0[row] == 0,
        order.len() > 1 ==> u0[row] >= -WEIGHT_LIMIT && delta >= 0,
        1 <= next <= n,
        !used[next],
        delta == minv0[next],
        forall|j: int| 1 <= j <= n && !used[j] ==> delta <= #[trigger] minv0[j],
        u1.len() == n + 1,
        v1.len() == n + 1,
        minv1.len() == n + 1,
        forall|r: int|
            1 <= r <= row ==> #[trigger] u1[r] == u0[r] + (if used[q[r]] {
                delta
            } else {
                0
            }),
        forall|r: int| row < r <= n ==> #[trigger] u1[r] == u0[r],
        forall|j: int|
            1 <= j <= n ==> #[trigger] v1[j] == v0[j] - (if used[j] {
                delta
            } else {
                0
            }),
        forall|j: int| 1 <= j <= n && !used[j] ==> #[trigger] minv1[j] == minv0[j] - delta,
    ensures
        grown == par.push(nearest_place(m, ints(u0), ints(v0), whole(p), order, next)),
        feasible(m, n, u1, v1, row),
        tight(m, u1, v1, q, row),
        priced(n, u1, v1, p, row),
        u1[row] >= -WEIGHT_LIMIT,
        tree(m, n, u1, v1, p, way, order.push(next), grown),
        reach(m, n, u1, v1, p, way, minv1, order),
        forall|j: int| 1 <= j <= n && !used[j] ==> 0 <= #[trigger] minv1[j],
{
    assert(order[0] == 0);
    assert(used[0]);
    assert forall|t: int| 0 <= t < order.len() implies {
        &&& p[#[trigger] order[t]] != 0
        &&& used[order[t]]
        &&& q[p[order[t]] as int] == order[t]
    } by {
        assert(order.contains(order[t]));
    }
    let far = order.len() == 1;
    assert(far ==> forall|k: int| 1 <= k <= n ==> !used[k]) by {
        if far {
            assert forall|k: int| 1 <= k <= n implies !used[k] by {
                if order.contains(k) {
                    let t = choose|t: int| 0 <= t < order.len() && order[t] == k;
                    assert(t == 0);
                }
            }
        }
    }
    // The row in a marked column keeps its distance to the nearest column.
    assert forall|t: int, j: int|
        0 <= t < order.len() && 1 <= j <= n && !used[j] implies #[trigger] slack(
        m,
        u1,
        v1,
        p[order[t]] as int,
        j,
    ) == slack(m, u0, v0, p[order[t]] as int, j) - delta && delta <= slack(
        m,
        u0,
        v0,
        p[order[t]] as int,
        j,
    ) by {
        let r = p[order[t]] as int;
        assert(used[q[r]]);
        assert(nearest(m, u0, v0, p, order, j, way[j] as int, minv0[j] as int));
        assert(minv0[j] <= slack(m, u0, v0, p[order[t]] as int, j));
    }
    assert forall|r: int, j: int| 1 <= r <= row && 1 <= j <= n implies 0 <= #[trigger] slack(
        m,
        u1,
        v1,
        r,
        j,
    ) by {
        assert(0 <= q[r] <= n && p[q[r]] == r);
        if used[q[r]] {
            let t = choose|t: int| 0 <= t < order.len() && order[t] == q[r];
            assert(p[order[t]] == r);
            if used[j] {
                assert(!far);
                assert(slack(m, u0, v0, r, j) >= 0);
                assert(slack(m, u1, v1, r, j) == slack(m, u0, v0, r, j));
            } else {
                assert(slack(m, u1, v1, p[order[t]] as int, j) >= 0);
            }
        } else {
            assert(r != row);
            assert(slack(m, u0, v0, r, j) >= 0);
            assert(used[j] ==> delta >= 0);
        }
    }
    assert forall|r: int| 1 <= r <= row && q[r] >= 1 implies slack(m, u1, v1, r, #[trigger] q[r])
        == 0 by {
        assert(slack(m, u0, v0, r, q[r]) == 0);
    }
    assert forall|j: int| 1 <= j <= n implies #[trigger] v1[j] <= 0 by {
        assert(v0[j] <= 0);
    }
    assert forall|j: int| 1 <= j <= n && #[trigger] p[j] == 0 implies v1[j] == 0 by {
        if used[j] {
            let t = choose|t: int| 0 <= t < order.len() && order[t] == j;
            assert(p[order[t]] != 0);
        }
    }
    assert(p[0] == row);
    assert(nearest(m, u0, v0, p, order, next, way[next] as int, minv0[next] as int));
    assert(u1[row] == u0[row] + delta);
    if far {
        assert(order.contains(way[next] as int));
        assert(way[next] == 0);
        assert(delta == slack(m, u0, v0, row, next));
        assert(padded(m, row - 1, next - 1) <= WEIGHT_LIMIT);
        assert(v0[next] <= 0);
    }
    lemma_nearest_place(m, ints(u0), ints(v0), whole(p), order, next);
    let parent = nearest_place(m, ints(u0), ints(v0), whole(p), order, next);
    assert(order[parent] == way[next]);
    let grown = par.push(parent);
    let longer = order.push(next);
    assert(longer.no_duplicates()) by {
        assert(!order.contains(next));
    }
    assert forall|t: int| 1 <= t < longer.len() implies {
        &&& 0 <= #[trigger] grown[t] < t
        &&& longer[grown[t]] == way[longer[t]]
        &&& slack(m, u1, v1, p[longer[grown[t]]] as int, longer[t]) == 0
    } by {
        if t < order.len() {
            assert(grown[t] == par[t]);
            assert(longer[t] == order[t]);
            let r = p[order[par[t]]] as int;
            assert(used[q[r]]);
            assert(used[order[t]]);
            assert(order[t] >= 1) by {
                assert(order[0] == 0);
                assert(order[t] != order[0]);
            }
            assert(slack(m, u0, v0, r, order[t]) == 0);
            assert(1 <= r <= row);
        } else {
            let r = p[order[parent]] as int;
            assert(slack(m, u1, v1, r, next) == slack(m, u0, v0, r, next) - delta);
        }
    }
    assert forall|t: int| 0 <= t < longer.len() - 1 implies p[#[trigger] longer[t]] != 0 by {
        assert(longer[t] == order[t]);
    }
    assert forall|t: int| 0 <= t < longer.len() implies 0 <= #[trigger] longer[t] <= n by {
        if t < order.len() {
            assert(longer[t] == order[t]);
        }
    }
    assert forall|j: int| 1 <= j <= n && !order.contains(j) implies #[trigger] nearest(
        m,
        u1,
        v1,
        p,
        order,
        j,
        way[j] as int,
        minv1[j] as int,
    ) by {
        assert(nearest(m, u0, v0, p, order, j, way[j] as int, minv0[j] as int));
        assert(!used[j]);
        let t0 = choose|t: int| 0 <= t < order.len() && order[t] == way[j];
        assert(slack(m, u1, v1, p[order[t0]] as int, j) == slack(
            m,
            u0,
            v0,
            p[order[t0]] as int,
            j,
        ) - delta);
        assert forall|t: int| 0 <= t < order.len() implies gap(
            m,
            ints(u1),
            ints(v1),
            whole(p)[#[trigger] order[t]],
            j,
        ) == gap(m, ints(u0), ints(v0), whole(p)[order[t]], j) - delta by {
            assert(0 <= order[t] <= n);
            assert(1 <= p[order[t]] <= row);
            assert(slack(m, u1, v1, p[order[t]] as int, j) == slack(
                m,
                u0,
                v0,
                p[order[t]] as int,
                j,
            ) - delta);
        }
        lemma_nearest_stays(
            m,
            ints(u0),
            ints(v0),
            ints(u1),
            ints(v1),
            whole(p),
            order,
            j,
            delta,
        );
    }
    grown
}

/// The search of a row, from its prices and the columns that it reached.
spec fn search_of(u: Seq<i64>, v: Seq<i64>, order: Seq<int>, par: Seq<int>) -> Search {
    Search { u: ints(u), v: ints(v), order, par }
}

/// One more column was reached.
proof fn lemma_grown(
    m: Seq<Seq<int>>,
    n: int,
    row: int,
    u0: Seq<i64>,
    v0: Seq<i64>,
    u1: Seq<i64>,
    v1: Seq<i64>,
    p: Seq<usize>,
    q: Seq<int>,
    used: Seq<bool>,
    order: Seq<int>,
    par: Seq<int>,
    next: int,
    delta: int,
)
    requires
        0 <= row <= n,
        is_within(n, u0, v0, p, order),
        matched(p, q, n, row, -1),
        marks(used, n, order),
        forall|t: int| 0 <= t < order.len() ==> p[#[trigger] order[t]] != 0,
        1 <= next <= n,
        next == next_upto(m, ints(u0), ints(v0), whole(p), order, n),
        delta == nearest_gap(m, ints(u0), ints(v0), whole(p), order, next),
        u1.len() == n + 1,
        v1.len() == n + 1,
        forall|r: int|
            1 <= r <= row ==> #[trigger] u1[r] == u0[r] + (if used[q[r]] {
                delta
            } else {
                0
            }),
        forall|r: int| row < r <= n ==> #[trigger] u1[r] == u0[r],
        u1[0] == u0[0],
        v1[0] == v0[0],
        forall|j: int|
            1 <= j <= n ==> #[trigger] v1[j] == v0[j] - (if used[j] {
                delta
            } else {
                0
            }),
    ensures
        grown(m, n as nat, whole(p), search_of(u0, v0, order, par)) == search_of(
            u1,
            v1,
            order.push(next),
            par.push(nearest_place(m, ints(u0), ints(v0), whole(p), order, next)),
        ),
{
    let after = grown(m, n as nat, whole(p), search_of(u0, v0, order, par));
    assert forall|r: int| 0 <= r <= n implies after.u[r] == #[trigger] ints(u1)[r] by {
        assert(ints(u0)[r] == u0[r]);
        if stands_in(whole(p), order, r) {
            let t = choose|t: int| 0 <= t < order.len() && whole(p)[#[trigger] order[t]] == r;
            assert(p[order[t]] != 0);
            assert(p[order[t]] == r);
            assert(q[p[order[t]] as int] == order[t]);
            assert(order.contains(order[t]));
            assert(used[q[r]]);
        } else if 1 <= r <= row {
            assert(0 <= q[r] <= n && p[q[r]] == r);
            if used[q[r]] {
                assert(order.contains(q[r]));
                let t = choose|t: int| 0 <= t < order.len() && order[t] == q[r];
                assert(whole(p)[order[t]] == r);
                assert(stands_in(whole(p), order, r));
            }
        }
    }
    assert(after.u =~= ints(u1));
    assert forall|j: int| 0 <= j <= n implies after.v[j] == #[trigger] ints(v1)[j] by {
        assert(ints(v0)[j] == v0[j]);
        assert(used[j] <==> order.contains(j));
    }
    assert(after.v =~= ints(v1));
}

/// Adjusts the prices until a free column is reached from `row` over edges
/// without slack.
fn search(
    weights: &Vec<Vec<i64>>,
    size: usize,
    row: usize,
    p: &Vec<usize>,
    u: &mut Vec<i64>,
    v: &mut Vec<i64>,
    way: &mut Vec<usize>,
    Ghost(m): Ghost<Seq<Seq<int>>>,
    Ghost(q): Ghost<Seq<int>>,
) -> (r: (usize, Ghost<(Seq<int>, Seq<int>)>))
    requires
        1 <= row <= size < usize::MAX,
        holds(weights@, size as int, m),
        limited(m),
        matched(p@, q, size as int, row as int, -1),
        q[row as int] == 0,
        feasible(m, size as int, old(u)@, old(v)@, row - 1),
        tight(m, old(u)@, old(v)@, q, row as int),
        priced(size as int, old(u)@, old(v)@, p@, row - 1),
        old(way).len() == size + 1,
    ensures
        final(way).len() == size + 1,
        feasible(m, size as int, final(u)@, final(v)@, row as int),
        tight(m, final(u)@, final(v)@, q, row as int),
        priced(size as int, final(u)@, final(v)@, p@, row as int),
        1 <= r.0 <= size,
        p[r.0 as int] == 0,
        r.1@.0.len() >= 1,
        r.1@.0.last() == r.0,
        tree(m, size as int, final(u)@, final(v)@, p@, final(way)@, r.1@.0, r.1@.1),
        search_of(final(u)@, final(v)@, r.1@.0, r.1@.1) == searched(
            m,
            size as nat,
            whole(p@),
            search_of(old(u)@, old(v)@, seq![0int], seq![0int]),
        ),
{
    let ghost start = search_of(u@, v@, seq![0int], seq![0int]);
    let mut column: usize = 0;
    let mut minv: Vec<i64> = vec![UNREACHED; size + 1];
    let mut used: Vec<bool> = vec![false; size + 1];
    let ghost mut order: Seq<int> = seq![0int];
    let ghost mut par: Seq<int> = seq![0int];
    let ghost free = lemma_free_column(p@, q, size as int, row - 1);
    proof {
        assert(p[q[row as int]] == row);
        lemma_prices_limited(m, size as int, u@, v@, p@, q, row as int, row - 1, free);
        assert(order.drop_last() =~= Seq::<int>::empty());
    }
    loop
        invariant
            1 <= row <= size < usize::MAX,
            holds(weights@, size as int, m),
            limited(m),
            matched(p@, q, size as int, row as int, -1),
            q[row as int] == 0,
            1 <= free <= size,
            p[free] == 0,
            minv.len() == size + 1,
            way.len() == size + 1,
            used.len() == size + 1,
            u.len() == size + 1,
            v.len() == size + 1,
            tree(m, size as int, u@, v@, p@, way@, order, par),
            order.last() == column,
            0 <= column <= size,
            p[column as int] != 0,
            marks(used@, size as int, order.drop_last()),
            order.len() == 1 ==> forall|j: int| 1 <= j <= size ==> #[trigger] minv[j] == UNREACHED,
            order.len() > 1 ==> reach(m, size as int, u@, v@, p@, way@, minv@, order.drop_last()),
            order.len() > 1 ==> forall|j: int|
                1 <= j <= size && !used[j] ==> 0 <= #[trigger] minv[j],
            feasible(
                m,
                size as int,
                u@,
                v@,
                if order.len() == 1 {
                    row - 1
                } else {
                    row as int
                },
            ),
            tight(m, u@, v@, q, row as int),
            priced(size as int, u@, v@, p@, row as int),
            prices_limited(size as int, u@, v@, row as int),
            order.len() == 1 ==> u[row as int] == 0,
            order.len() > 1 ==> u[row as int] >= -WEIGHT_LIMIT,
            start == search_of(old(u)@, old(v)@, seq![0int], seq![0int]),
            searched(m, size as nat, whole(p@), start) == searched(
                m,
                size as nat,
                whole(p@),
                search_of(u@, v@, order, par),
            ),
        decreases size + 2 - order.len(),
    {
        proof {
            let longer = order.push(free);
            assert forall|a: int, b: int|
                0 <= a < longer.len() && 0 <= b < longer.len() && a != b implies longer[a]
                != longer[b] by {
                if a == order.len() || b == order.len() {
                    let t = if a == order.len() { b } else { a };
                    assert(longer[t] == order[t]);
                    if t == order.len() - 1 {
                        assert(p[column as int] != 0);
                    } else {
                        assert(p[order[t]] != 0);
                    }
                } else {
                    assert(order[a] != order[b]);
                }
            }
            assert forall|t: int| 0 <= t < longer.len() implies 0 <= #[trigger] longer[t] < size
                + 1 by {
                if t < order.len() {
                    assert(longer[t] == order[t]);
                }
            }
            lemma_pigeonhole(longer, size + 1);
            assert(order.len() <= size);
            lemma_pigeonhole(order, size + 1);
            assert forall|t: int| 0 <= t < order.len() implies p[#[trigger] order[t]] != 0 by {
                if t == order.len() - 1 {
                    assert(order[t] == column);
                }
            }
        }
        let ghost used0 = used@;
        used.set(column, true);
        proof {
            assert forall|k: int| 0 <= k <= size implies (#[trigger] used[k] <==> order.contains(
                k,
            )) by {
                let before = order.drop_last();
                if order.contains(k) && k != column {
                    let t = choose|t: int| 0 <= t < order.len() && order[t] == k;
                    assert(before[t] == k);
                    assert(used0[k]);
                }
                if used[k] && k != column {
                    assert(used0[k]);
                    let t = choose|t: int| 0 <= t < before.len() && before[t] == k;
                    assert(order[t] == k);
                }
                if k == column {
                    assert(order[order.len() - 1] == k);
                }
            }
            if used[free] {
                let t = choose|t: int| 0 <= t < order.len() && order[t] == free;
                assert(p[order[t]] != 0);
            }
        }
        let ghost way0 = way@;
        let (delta, next_column) = scan(
            weights,
            size,
            column,
            p,
            u,
            v,
            &used,
            way,
            &mut minv,
            Ghost(m),
            Ghost(q),
            Ghost(row as int),
            Ghost(order),
            Ghost(free),
        );
        let ghost u0 = u@;
        let ghost v0 = v@;
        let ghost minv0 = minv@;
        proof {
            assert(tree(m, size as int, u@, v@, p@, way@, order, par)) by {
                assert forall|t: int| 1 <= t < order.len() implies order[#[trigger] par[t]]
                    == way[order[t]] by {
                    assert(order.contains(order[t]));
                    assert(used[order[t]]);
                    assert(way[order[t]] == way0[order[t]]);
                }
            }
            assert forall|j: int| 1 <= j <= size && !used[j] implies -4 * WEIGHT_LIMIT
                <= #[trigger] minv[j] <= 4 * WEIGHT_LIMIT by {
                assert(!order.contains(j));
                assert(nearest(m, u@, v@, p@, order, j, way[j] as int, minv[j] as int));
                let t = choose|t: int| 0 <= t < order.len() && order[t] == way[j];
                let r = p[order[t]] as int;
                assert(p[order[t]] != 0);
                assert(1 <= r <= row);
                assert(-WEIGHT_LIMIT <= u[r] <= WEIGHT_LIMIT);
                assert(-2 * WEIGHT_LIMIT <= v[j] <= 0);
                assert(-WEIGHT_LIMIT <= padded(m, r - 1, j - 1) <= WEIGHT_LIMIT);
            }
            if order.len() > 1 {
                let j = next_column as int;
                assert(!order.contains(j));
                assert(nearest(m, u@, v@, p@, order, j, way[j] as int, minv[j] as int));
                let t = choose|t: int| 0 <= t < order.len() && order[t] == way[j];
                assert(p[order[t]] != 0);
                assert(slack(m, u@, v@, p[order[t]] as int, j) >= 0);
            }
            assert forall|k: int| 0 <= k <= size && used[k] implies #[trigger] p[k] != 0 by {
                let t = choose|t: int| 0 <= t < order.len() && order[t] == k;
                assert(p[order[t]] != 0);
            }
        }
        shift(
            size,
            delta,
            p,
            &used,
            u,
            v,
            &mut minv,
            Ghost(q),
            Ghost(row as int),
            Ghost(order),
        );
        proof {
            let longer_par = lemma_shift(
                m,
                size as int,
                row as int,
                u0,
                v0,
                u@,
                v@,
                p@,
                q,
                way@,
                minv0,
                minv@,
                used@,
                order,
                par,
                delta as int,
                next_column as int,
            );
            lemma_prices_limited(
                m,
                size as int,
                u@,
                v@,
                p@,
                q,
                row as int,
                row as int,
                free,
            );
            assert forall|t: int| 0 <= t < order.len() implies 0 <= #[trigger] order[t] <= size
                && 0 <= p[order[t]] <= size by {
                assert(p[order[t]] != 0);
            }
            lemma_gap_is_slack(m, u0, v0, p@, order, size as int, next_column as int);
            assert(nearest(
                m,
                u0,
                v0,
                p@,
                order,
                next_column as int,
                way[next_column as int] as int,
                minv0[next_column as int] as int,
            ));
            lemma_grown(
                m,
                size as int,
                row as int,
                u0,
                v0,
                u@,
                v@,
                p@,
                q,
                used@,
                order,
                par,
                next_column as int,
                delta as int,
            );
            assert(whole(p@)[order.last()] != 0);
            let reached = search_of(u0, v0, order, par);
            assert(searched(m, size as nat, whole(p@), reached) == searched(
                m,
                size as nat,
                whole(p@),
                grown(m, size as nat, whole(p@), reached),
            ));
            assert(order.push(next_column as int).drop_last() =~= order);
            order = order.push(next_column as int);
            par = longer_par;
        }
        column = next_column;
        if p[column] == 0 {
            assert(whole(p@)[order.last()] == 0);
            assert(searched(m, size as nat, whole(p@), search_of(u@, v@, order, par)) == search_of(
                u@,
                v@,
                order,
                par,
            ));
            return (column, Ghost((order, par)));
        }
    }
}

/// Hands each column on the path from `column` back to column zero the row of
/// the column it was reached from.
fn augment(
    size: usize,
    start: usize,
    row: usize,
    p: &mut Vec<usize>,
    way: &Vec<usize>,
    Ghost(m): Ghost<Seq<Seq<int>>>,
    Ghost(u): Ghost<Seq<i64>>,
    Ghost(v): Ghost<Seq<i64>>,
    Ghost(q): Ghost<Seq<int>>,
    Ghost(order): Ghost<Seq<int>>,
    Ghost(par): Ghost<Seq<int>>,
) -> (r: Ghost<Seq<int>>)
    requires
        1 <= row <= size < usize::MAX,
        matched(old(p)@, q, size as int, row as int, -1),
        old(p)[start as int] == 0,
        1 <= start <= size,
        tight(m, u, v, q, row as int),
        tree(m, size as int, u, v, old(p)@, way@, order, par),
        order.last() == start,
    ensures
        matched(final(p)@, r@, size as int, row as int, 0),
        tight(m, u, v, r@, row as int),
        forall|j: int| 1 <= j <= size && #[trigger] final(p)[j] == 0 ==> old(p)[j] == 0,
        whole(final(p)@) == handed(whole(old(p)@), order, par, order.len() - 1),
{
    let mut column: usize = start;
    let ghost mut q: Seq<int> = q;
    let ghost mut t: int = order.len() - 1;
    proof {
        assert(matched(p@, q, size as int, row as int, column as int));
    }
    while column != 0
        invariant
            1 <= row <= size < usize::MAX,
            p.len() == size + 1,
            0 <= column <= size,
            0 <= t < order.len(),
            order[t] == column,
            way.len() == size + 1,
            tree(m, size as int, u, v, old(p)@, way@, order, par),
            matched(p@, q, size as int, row as int, column as int),
            tight(m, u, v, q, row as int),
            forall|s: int| 0 <= s < t ==> p[#[trigger] order[s]] == old(p)[order[s]],
            forall|j: int|
                1 <= j <= size && j != column && #[trigger] p[j] == 0 ==> old(p)[j] == 0,
            column != 0 ==> t >= 1,
            handed(whole(old(p)@), order, par, order.len() - 1) == handed(
                whole(p@),
                order,
                par,
                t,
            ),
        decreases t,
    {
        let previous: usize = way[column];
        let ghost s = par[t];
        proof {
            assert(order[s] == previous);
            assert(0 <= order[s] <= size);
            assert(old(p)[order[s]] != 0);
            assert(order[s] != order[t]);
        }
        let moved: usize = p[previous];
        let ghost p0 = p@;
        let ghost q0 = q;
        p.set(column, moved);
        proof {
            assert(q0[moved as int] == previous);
            q = q0.update(moved as int, column as int);
            assert(slack(m, u, v, moved as int, column as int) == 0);
            assert forall|r: int| 1 <= r <= row implies {
                &&& 0 <= #[trigger] q[r] <= size
                &&& q[r] != previous
                &&& p[q[r]] == r
            } by {
                assert(0 <= q0[r] <= size);
                assert(p0[q0[r]] == r);
            }
            assert forall|k: int| 0 <= k <= size && k != previous && #[trigger] p[k] != 0 implies {
                &&& 1 <= p[k] <= row
                &&& q[p[k] as int] == k
            } by {
                if k != column {
                    assert(p0[k] != 0);
                }
            }
            assert forall|r: int| 1 <= r <= row && q[r] >= 1 implies slack(
                m,
                u,
                v,
                r,
                #[trigger] q[r],
            ) == 0 by {
                if r != moved {
                    assert(slack(m, u, v, r, q0[r]) == 0);
                }
            }
            assert forall|k: int| 0 <= k < s implies p[#[trigger] order[k]] == old(p)[order[k]] by {
                assert(order[k] != order[t]);
            }
            assert(whole(p@) =~= whole(p0).update(order[t], whole(p0)[order[s]]));
            t = s;
            if previous != 0 {
                assert(t != 0) by {
                    assert(order[0] == 0);
                }
            }
        }
        column = previous;
    }
    assert(t == 0) by {
        assert(order[0] == 0);
    }
    Ghost(q)
}

/// Equality of the price sum and the weight of an assignment along edges
/// without slack; an upper bound for any other.
proof fn lemma_total(m: Seq<Seq<int>>, n: int, u: Seq<i64>, v: Seq<i64>, cols: Seq<int>, k: int)
    requires
        u.len() == n + 1,
        v.len() == n + 1,
        is_perfect(cols, n as nat),
        feasible(m, n, u, v, n),
        0 <= k <= n,
    ensures
        perfect_total(m, cols.take(k)) <= -sum(
            Seq::new(k as nat, |r: int| u[r + 1] as int),
        ) - sum(Seq::new(k as nat, |r: int| v[cols[r] + 1] as int)),
        (forall|r: int| 0 <= r < k ==> slack(m, u, v, r + 1, (#[trigger] cols[r]) + 1) == 0)
            ==> perfect_total(m, cols.take(k)) == -sum(
            Seq::new(k as nat, |r: int| u[r + 1] as int),
        ) - sum(Seq::new(k as nat, |r: int| v[cols[r] + 1] as int)),
    decreases k,
{
    let a = Seq::new(k as nat, |r: int| u[r + 1] as int);
    let b = Seq::new(k as nat, |r: int| v[cols[r] + 1] as int);
    if k > 0 {
        lemma_total(m, n, u, v, cols, k - 1);
        assert(cols.take(k).drop_last() =~= cols.take(k - 1));
        assert(a.drop_last() =~= Seq::new((k - 1) as nat, |r: int| u[r + 1] as int));
        assert(b.drop_last() =~= Seq::new((k - 1) as nat, |r: int| v[cols[r] + 1] as int));
        assert(0 <= cols[k - 1] < n);
        assert(slack(m, u, v, k, cols[k - 1] + 1) >= 0);
        assert((k - 1) + 1 == k);
    }
}

/// Feasible prices show an assignment along edges without slack optimal.
proof fn lemma_optimal(m: Seq<Seq<int>>, n: int, u: Seq<i64>, v: Seq<i64>, cols: Seq<int>)
    requires
        n >= 0,
        u.len() == n + 1,
        v.len() == n + 1,
        is_perfect(cols, n as nat),
        feasible(m, n, u, v, n),
        forall|r: int| 0 <= r < n ==> slack(m, u, v, r + 1, (#[trigger] cols[r]) + 1) == 0,
    ensures
        is_optimal_perfect(m, n as nat, cols),
{
    let f = Seq::new(n as nat, |j: int| v[j + 1] as int);
    lemma_total(m, n, u, v, cols, n);
    assert(cols.take(n) =~= cols);
    lemma_sum_permuted(f, cols);
    assert(pick(f, cols) =~= Seq::new(n as nat, |r: int| v[cols[r] + 1] as int));
    assert forall|other: Seq<int>| #[trigger] is_perfect(other, n as nat) implies perfect_total(
        m,
        other,
    ) <= perfect_total(m, cols) by {
        lemma_total(m, n, u, v, other, n);
        assert(other.take(n) =~= other);
        lemma_sum_permuted(f, other);
        assert(pick(f, other) =~= Seq::new(n as nat, |r: int| v[other[r] + 1] as int));
    }
}

proof fn lemma_same_total(w: Seq<Seq<int>>, m: Seq<Seq<int>>, n: nat, cols: Seq<int>)
    requires
        forall|a: int, b: int|
            #![trigger padded(m, a, b)]
            0 <= a < n && 0 <= b < n ==> padded(m, a, b) == padded(w, a, b),
        cols.len() <= n,
        forall|r: int| 0 <= r < cols.len() ==> 0 <= #[trigger] cols[r] < n,
    ensures
        perfect_total(w, cols) == perfect_total(m, cols),
    decreases cols.len(),
{
    if cols.len() > 0 {
        let rest = cols.drop_last();
        assert forall|r: int| 0 <= r < rest.len() implies 0 <= #[trigger] rest[r] < n by {
            assert(rest[r] == cols[r]);
        }
        lemma_same_total(w, m, n, rest);
        assert(cols[cols.len() - 1] == cols.last());
        assert(padded(m, cols.len() - 1, cols.last()) == padded(w, cols.len() - 1, cols.last()));
    }
}

/// What weighs most in a matrix weighs most in one that agrees with it on a
/// square.
pub proof fn lemma_same_optimum(w: Seq<Seq<int>>, m: Seq<Seq<int>>, n: nat, cols: Seq<int>)
    requires
        forall|a: int, b: int|
            #![trigger padded(m, a, b)]
            0 <= a < n && 0 <= b < n ==> padded(m, a, b) == padded(w, a, b),
        is_optimal_perfect(w, n, cols),
    ensures
        is_optimal_perfect(m, n, cols),
{
    lemma_same_total(w, m, n, cols);
    assert forall|other: Seq<int>| #[trigger] is_perfect(other, n) implies perfect_total(m, other)
        <= perfect_total(m, cols) by {
        lemma_same_total(w, m, n, other);
        assert(perfect_total(w, other) <= perfect_total(w, cols));
    }
}

/// The column of each row, both numbered from zero, in a perfect assignment
/// of largest weight.  `weights` is a square; entries beyond the limit would
/// overflow the sums.
pub(crate) fn solve(weights: &Vec<Vec<i64>>, Ghost(wide): Ghost<Seq<Seq<int>>>) -> (r: Vec<usize>)
    requires
        weights.len() < usize::MAX,
        forall|a: int| 0 <= a < weights.len() ==> (#[trigger] weights[a]).len() == weights.len(),
        forall|a: int, b: int|
            0 <= a < weights.len() && 0 <= b < weights.len() ==> padded(wide, a, b)
                == #[trigger] weights[a]@[b],
        forall|a: int, b: int|
            -WEIGHT_LIMIT <= #[trigger] padded(wide, a, b) <= WEIGHT_LIMIT,
    ensures
        r@.map_values(|c: usize| c as int) == assignment(wide, weights.len() as nat),
        is_optimal_perfect(
            wide,
            weights.len() as nat,
            assignment(wide, weights.len() as nat),
        ),
{
    let size = weights.len();
    let ghost m = square(wide, size as nat);
    proof {
        assert forall|a: int, b: int| 0 <= a < size && 0 <= b < size implies padded(m, a, b)
            == #[trigger] weights[a]@[b] by {
            assert(padded(wide, a, b) == weights[a]@[b]);
            assert(m[a][b] == padded(wide, a, b));
        }
        assert forall|a: int, b: int|
            -WEIGHT_LIMIT <= #[trigger] padded(m, a, b) <= WEIGHT_LIMIT by {
            if 0 <= a < size && 0 <= b < size {
                assert(m[a][b] == padded(wide, a, b));
            }
        }
    }
    let mut u: Vec<i64> = vec![0; size + 1];
    let mut v: Vec<i64> = vec![0; size + 1];
    let mut p: Vec<usize> = vec![0; size + 1];
    let mut way: Vec<usize> = vec![0; size + 1];
    let ghost mut q: Seq<int> = Seq::new((size + 1) as nat, |r: int| 0int);
    let mut row: usize = 1;
    proof {
        assert forall|a: int, b: int| 0 <= a < size && 0 <= b < size implies #[trigger] entry(
            weights@,
            a,
            b,
        ) == padded(m, a, b) by {
            assert(padded(m, a, b) == weights[a]@[b]);
        }
        let zeros = Seq::new(size as nat + 1, |k: int| 0int);
        assert(ints(u@) =~= zeros);
        assert(ints(v@) =~= zeros);
        assert(whole(p@) =~= zeros);
    }
    while row <= size
        invariant
            size < usize::MAX,
            1 <= row <= size + 1,
            rows_added(m, size as nat, (row - 1) as nat) == (Solver {
                u: ints(u@),
                v: ints(v@),
                p: whole(p@),
            }),
            holds(weights@, size as int, m),
            limited(m),
            matched(p@, q, size as int, row - 1, 0),
            feasible(m, size as int, u@, v@, row - 1),
            tight(m, u@, v@, q, row - 1),
            priced(size as int, u@, v@, p@, row - 1),
            way.len() == size + 1,
        decreases size + 1 - row,
    {
        let ghost p0 = p@;
        p.set(0, row);
        assert(whole(p@) =~= whole(p0).update(0, row as int));
        let ghost q1 = q.update(row as int, 0);
        proof {
            assert forall|r: int| 1 <= r <= row implies {
                &&& 0 <= #[trigger] q1[r] <= size
                &&& q1[r] != -1
                &&& p[q1[r]] == r
            } by {
                if r < row {
                    assert(q1[r] == q[r]);
                    assert(p0[q[r]] == r);
                }
            }
            assert forall|k: int| 0 <= k <= size && k != -1 && #[trigger] p[k] != 0 implies {
                &&& 1 <= p[k] <= row
                &&& q1[p[k] as int] == k
            } by {
                if k > 0 {
                    assert(p0[k] != 0);
                }
            }
            assert forall|r: int| 1 <= r <= row && q1[r] >= 1 implies slack(
                m,
                u@,
                v@,
                r,
                #[trigger] q1[r],
            ) == 0 by {
                assert(q1[r] == q[r]);
            }
            assert forall|j: int| 1 <= j <= size && #[trigger] p[j] == 0 implies v[j] == 0 by {
                assert(p0[j] == 0);
            }
        }
        let (column, Ghost(found)) = search(
            weights,
            size,
            row,
            &p,
            &mut u,
            &mut v,
            &mut way,
            Ghost(m),
            Ghost(q1),
        );
        let ghost p1 = p@;
        let Ghost(next) = augment(
            size,
            column,
            row,
            &mut p,
            &way,
            Ghost(m),
            Ghost(u@),
            Ghost(v@),
            Ghost(q1),
            Ghost(found.0),
            Ghost(found.1),
        );
        proof {
            q = next;
            assert forall|j: int| 1 <= j <= size && #[trigger] p[j] == 0 implies v[j] == 0 by {
                assert(p1[j] == 0);
            }
            assert(rows_added(m, size as nat, row as nat) == (Solver {
                u: ints(u@),
                v: ints(v@),
                p: whole(p@),
            }));
        }
        row += 1;
    }
    let ghost cols = Seq::new(size as nat, |r: int| q[r + 1] - 1);
    proof {
        assert forall|r: int| 0 <= r < size implies 0 <= #[trigger] cols[r] < size by {
            assert(0 <= q[r + 1] <= size);
        }
        assert forall|i: int, j: int| 0 <= i < size && 0 <= j < size && i != j implies cols[i]
            != cols[j] by {
            assert(p[q[i + 1]] == i + 1);
            assert(p[q[j + 1]] == j + 1);
        }
        assert forall|r: int| 0 <= r < size implies slack(
            m,
            u@,
            v@,
            r + 1,
            (#[trigger] cols[r]) + 1,
        ) == 0 by {
            assert(1 <= q[r + 1]);
            assert(cols[r] + 1 == q[r + 1]);
        }
        lemma_optimal(m, size as int, u@, v@, cols);
        assert forall|j: int| 1 <= j <= size implies #[trigger] p[j] != 0 by {
            if p[j] == 0 {
                let s = cols.push(j - 1);
                assert forall|a: int, b: int|
                    0 <= a < s.len() && 0 <= b < s.len() && a != b implies s[a] != s[b] by {
                    let x = if a < b { a } else { b };
                    let y = if a < b { b } else { a };
                    if y == size {
                        assert(p[q[x + 1]] == x + 1);
                    } else {
                        assert(cols[x] != cols[y]);
                    }
                }
                lemma_pigeonhole(s, size as int);
            }
        }
    }
    let mut columns: Vec<usize> = vec![0; size];
    let mut j: usize = 1;
    while j <= size
        invariant
            size < usize::MAX,
            1 <= j <= size + 1,
            columns.len() == size,
            matched(p@, q, size as int, size as int, 0),
            cols == Seq::new(size as nat, |r: int| q[r + 1] - 1),
            forall|j: int| 1 <= j <= size ==> #[trigger] p[j] != 0,
            forall|r: int|
                0 <= r < size && q[r + 1] < j ==> #[trigger] columns[r] == cols[r],
        decreases size + 1 - j,
    {
        let held: usize = p[j];
        proof {
            assert(p[j as int] != 0);
            assert(q[held as int] == j);
        }
        let ghost columns0 = columns@;
        columns.set(held - 1, j - 1);
        proof {
            assert forall|r: int| 0 <= r < size && q[r + 1] < j + 1 implies #[trigger] columns[r]
                == cols[r] by {
                if r != held - 1 {
                    assert(p[q[r + 1]] == r + 1);
                    assert(columns[r] == columns0[r]);
                }
            }
        }
        j += 1;
    }
    proof {
        let chosen = columns@.map_values(|c: usize| c as int);
        assert(chosen =~= cols) by {
            assert forall|r: int| 0 <= r < size implies chosen[r] == cols[r] by {
                assert(q[r + 1] <= size);
                assert(columns[r] == cols[r]);
            }
        }
        let held = whole(p@).skip(1);
        assert forall|r: int| 0 <= r < size implies #[trigger] assignment(wide, size as nat)[r]
            == cols[r] by {
            assert(p[q[r + 1]] == r + 1);
            assert(held[cols[r]] == r + 1);
            let i = held.index_of(r + 1);
            assert(0 <= i < held.len() && held[i] == r + 1);
            assert(p[i + 1] == r + 1);
            assert(q[p[i + 1] as int] == i + 1);
        }
        assert(assignment(wide, size as nat) =~= cols);
        lemma_same_optimum(m, wide, size as nat, cols);
    }
    columns
}

} // verus!
