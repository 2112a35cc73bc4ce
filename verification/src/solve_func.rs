//! Solving a system of linear equations over the integers by fraction-free
//! elimination.
//!
//! The system is an augmented matrix: each row holds the coefficients of
//! one equation and, last, its right-hand side. `solved` says step by step
//! what the solver computes. `lemma_solved_sound` shows that what it
//! returns satisfies every equation of the system it was given,
//! `lemma_solver_law` that it is the only solution, and
//! `lemma_solver_complete` that the one solution of a system is returned
//! wherever the divisions of the elimination are exact and the values on
//! the way can be held.
use vstd::prelude::*;

verus! {

/// The entries of a row as integers.
pub open spec fn ints(row: Seq<i64>) -> Seq<int> {
    Seq::new(row.len(), |j: int| row[j] as int)
}

/// The rows of a matrix as sequences of integers.
pub open spec fn matrix(m: Seq<Vec<i64>>) -> Seq<Seq<int>> {
    Seq::new(m.len(), |i: int| ints(m[i]@))
}

/// The widths that a solution assigns, as integers.
pub open spec fn widths(x: Seq<usize>) -> Seq<int> {
    Seq::new(x.len(), |j: int| x[j] as int)
}

/// The number of unknowns: one less than the length of the first row.
pub open spec fn unknowns(m: Seq<Seq<int>>) -> int {
    if m.len() == 0 {
        0
    } else {
        m[0].len() - 1
    }
}

/// Every row holds `n` coefficients and a right-hand side.
pub open spec fn shaped(m: Seq<Seq<int>>, n: int) -> bool {
    n >= 0 && forall|i: int| 0 <= i < m.len() ==> (#[trigger] m[i]).len() == n + 1
}

/// The rows have one length, which is not zero.
pub open spec fn well_shaped(m: Seq<Seq<int>>) -> bool {
    shaped(m, unknowns(m))
}

/// A value that an entry of the matrix can hold.
pub open spec fn fits(v: int) -> bool {
    i64::MIN <= v <= i64::MAX
}

/// The bound kept on the sums formed in back-substitution.
pub open spec fn sum_limit() -> int {
    0x2000_0000_0000_0000_0000_0000_0000_0000
}

/// The distance of `v` from zero.
pub open spec fn abs(v: int) -> int {
    if v < 0 {
        -v
    } else {
        v
    }
}

/// `den` divides `num`.
pub open spec fn exact(num: int, den: int) -> bool {
    den != 0 && abs(num) % abs(den) == 0
}

/// `num / den`, rounded towards zero.
pub open spec fn quotient(num: int, den: int) -> int {
    if (num < 0) != (den < 0) {
        -(abs(num) / abs(den))
    } else {
        abs(num) / abs(den)
    }
}

/// An exact quotient times the divisor is the dividend.
pub proof fn lemma_quotient(num: int, den: int)
    requires
        exact(num, den),
    ensures
        quotient(num, den) * den == num,
{
    let a = abs(num);
    let b = abs(den);
    let q = a / b;
    assert(a == q * b) by {
        vstd::arithmetic::div_mod::lemma_fundamental_div_mod(a, b);
        assert(b * q == q * b) by (nonlinear_arith);
    }
    assert(quotient(num, den) * den == num) by (nonlinear_arith)
        requires
            a == q * b,
            a == abs(num),
            b == abs(den),
            quotient(num, den) == if (num < 0) != (den < 0) {
                -q
            } else {
                q
            },
    ;
}

/// The first row at or after `from` whose entry in column `k` is not
/// zero; the number of rows if there is none.
pub open spec fn pivot_row(m: Seq<Seq<int>>, k: int, from: int) -> int
    decreases m.len() - from,
{
    if from < 0 || from >= m.len() {
        m.len() as int
    } else if m[from][k] != 0 {
        from
    } else {
        pivot_row(m, k, from + 1)
    }
}

/// The matrix with rows `a` and `b` exchanged.
pub open spec fn swapped(m: Seq<Seq<int>>, a: int, b: int) -> Seq<Seq<int>> {
    m.update(a, m[b]).update(b, m[a])
}

/// What the elimination divides by `prev` to get the new entry in column
/// `j` of a row `ri` below the pivot row `rk`.
pub open spec fn numerator(ri: Seq<int>, rk: Seq<int>, k: int, j: int) -> int {
    ri[j] * rk[k] - ri[k] * rk[j]
}

/// Every new entry of the row is an exact quotient that can be held.
pub open spec fn row_ok(ri: Seq<int>, rk: Seq<int>, k: int, prev: int) -> bool {
    forall|j: int|
        k < j < ri.len() ==> exact(#[trigger] numerator(ri, rk, k, j), prev) && fits(
            quotient(numerator(ri, rk, k, j), prev),
        )
}

/// The row `ri` after column `k` is eliminated with the pivot row `rk`.
pub open spec fn reduced_row(ri: Seq<int>, rk: Seq<int>, k: int, prev: int) -> Seq<int> {
    Seq::new(
        ri.len(),
        |j: int|
            if j < k {
                ri[j]
            } else if j == k {
                0
            } else {
                quotient(numerator(ri, rk, k, j), prev)
            },
    )
}

/// Every row below row `k` can be reduced.
pub open spec fn step_ok(m: Seq<Seq<int>>, k: int, prev: int) -> bool {
    forall|i: int| k < i < m.len() ==> row_ok(#[trigger] m[i], m[k], k, prev)
}

/// The matrix after column `k` is eliminated from the rows below row `k`.
pub open spec fn step(m: Seq<Seq<int>>, k: int, prev: int) -> Seq<Seq<int>> {
    Seq::new(
        m.len(),
        |i: int|
            if i <= k {
                m[i]
            } else {
                reduced_row(m[i], m[k], k, prev)
            },
    )
}

/// Forward elimination from column `k` on, `prev` being the pivot of the
/// column before: for each column the first row with a non-zero entry is
/// brought up, then the column is eliminated below it. Nothing where a
/// column has no pivot, a division is not exact, or an entry cannot be
/// held.
pub open spec fn eliminate(m: Seq<Seq<int>>, n: int, k: int, prev: int) -> Option<Seq<Seq<int>>>
    decreases n - k,
{
    if k >= n || k < 0 {
        Some(m)
    } else {
        let p = pivot_row(m, k, k);
        if p >= m.len() {
            None
        } else {
            let m1 = swapped(m, k, p);
            if !step_ok(m1, k, prev) {
                None
            } else {
                eliminate(step(m1, k, prev), n, k + 1, m1[k][k])
            }
        }
    }
}

/// The rows past the unknowns have a zero right-hand side.
pub open spec fn consistent(m: Seq<Seq<int>>, n: int) -> bool {
    forall|i: int| n <= i < m.len() ==> (#[trigger] m[i])[n] == 0
}

/// The sum of `row[j] * x[j]` for `lo <= j < hi`.
pub open spec fn range_dot(row: Seq<int>, x: Seq<int>, lo: int, hi: int) -> int
    decreases hi - lo,
{
    if hi <= lo {
        0
    } else {
        range_dot(row, x, lo, hi - 1) + row[hi - 1] * x[hi - 1]
    }
}

/// The same sum, formed term by term; nothing once a partial sum leaves
/// the bound.
pub open spec fn checked_dot(row: Seq<int>, x: Seq<int>, lo: int, hi: int) -> Option<int>
    decreases hi - lo,
{
    if hi <= lo {
        Some(0)
    } else {
        match checked_dot(row, x, lo, hi - 1) {
            Some(s) => {
                let v = s + row[hi - 1] * x[hi - 1];
                if -sum_limit() <= v <= sum_limit() {
                    Some(v)
                } else {
                    None
                }
            },
            None => None,
        }
    }
}

/// The value of unknown `i` from row `i` of a triangular system, the
/// later unknowns being known.
pub open spec fn unknown_of(row: Seq<int>, x: Seq<int>, i: int, n: int) -> Option<int> {
    match checked_dot(row, x, i + 1, n) {
        None => None,
        Some(s) => {
            let rhs = row[n] - s;
            let d = row[i];
            if exact(rhs, d) && fits(quotient(rhs, d)) {
                Some(quotient(rhs, d))
            } else {
                None
            }
        },
    }
}

/// Back-substitution from row `i` up to row 0.
pub open spec fn back(m: Seq<Seq<int>>, n: int, i: int, x: Seq<int>) -> Option<Seq<int>>
    decreases i + 1,
{
    if i < 0 {
        Some(x)
    } else {
        match unknown_of(m[i], x, i, n) {
            None => None,
            Some(v) => back(m, n, i - 1, x.update(i, v)),
        }
    }
}

/// `n` zeros.
pub open spec fn zeros(n: int) -> Seq<int> {
    Seq::new(n as nat, |j: int| 0int)
}

/// Every value is a width: not negative and not beyond `usize`.
pub open spec fn all_widths(x: Seq<int>) -> bool {
    forall|j: int| 0 <= j < x.len() ==> 0 <= #[trigger] x[j] <= usize::MAX
}

/// The matrix that elimination leaves, where it succeeds.
pub open spec fn eliminated(m: Seq<Seq<int>>) -> Option<Seq<Seq<int>>> {
    if well_shaped(m) {
        eliminate(m, unknowns(m), 0, 1)
    } else {
        None
    }
}

/// What the solver returns for the system `m`: elimination, the test of
/// the rows past the unknowns, back-substitution, and the test that every
/// value is a width.
pub open spec fn solved(m: Seq<Seq<int>>) -> Option<Seq<int>> {
    match eliminated(m) {
        None => None,
        Some(u) => {
            let n = unknowns(m);
            if !consistent(u, n) {
                None
            } else {
                match back(u, n, n - 1, zeros(n)) {
                    None => None,
                    Some(x) => if all_widths(x) {
                        Some(x)
                    } else {
                        None
                    },
                }
            }
        },
    }
}

/// `x` satisfies every equation of `m`.
pub open spec fn solves(m: Seq<Seq<int>>, x: Seq<int>, n: int) -> bool {
    x.len() == n && forall|i: int|
        0 <= i < m.len() ==> range_dot(#[trigger] m[i], x, 0, n) == m[i][n]
}

/// In the rows from `k` on, the columns before `k` hold zeros.
pub open spec fn cleared(m: Seq<Seq<int>>, k: int) -> bool {
    forall|i: int, j: int| k <= i < m.len() && 0 <= j < k ==> #[trigger] m[i][j] == 0
}

/// The first `k` rows are triangular with a non-zero diagonal.
pub open spec fn triangular(m: Seq<Seq<int>>, k: int) -> bool {
    &&& k <= m.len()
    &&& forall|i: int| 0 <= i < k ==> (#[trigger] m[i])[i] != 0
    &&& forall|i: int, j: int| 0 <= j < i < k ==> #[trigger] m[i][j] == 0
}

proof fn lemma_pivot_row(m: Seq<Seq<int>>, k: int, from: int)
    requires
        0 <= from <= m.len(),
    ensures
        from <= pivot_row(m, k, from) <= m.len(),
        pivot_row(m, k, from) < m.len() ==> m[pivot_row(m, k, from)][k] != 0,
        forall|i: int| from <= i < pivot_row(m, k, from) ==> (#[trigger] m[i])[k] == 0,
    decreases m.len() - from,
{
    if from < m.len() && m[from][k] == 0 {
        lemma_pivot_row(m, k, from + 1);
    }
}

/// A linear combination of rows gives the same combination of sums.
proof fn lemma_dot_combine(
    r: Seq<int>,
    a: Seq<int>,
    c: Seq<int>,
    x: Seq<int>,
    gamma: int,
    alpha: int,
    beta: int,
    hi: int,
)
    requires
        0 <= hi <= r.len(),
        hi <= a.len(),
        hi <= c.len(),
        forall|j: int| 0 <= j < hi ==> gamma * #[trigger] r[j] == alpha * a[j] - beta * c[j],
    ensures
        gamma * range_dot(r, x, 0, hi) == alpha * range_dot(a, x, 0, hi) - beta * range_dot(
            c,
            x,
            0,
            hi,
        ),
    decreases hi,
{
    if hi > 0 {
        lemma_dot_combine(r, a, c, x, gamma, alpha, beta, hi - 1);
        let dr = range_dot(r, x, 0, hi - 1);
        let da = range_dot(a, x, 0, hi - 1);
        let dc = range_dot(c, x, 0, hi - 1);
        let rj = r[hi - 1];
        let aj = a[hi - 1];
        let cj = c[hi - 1];
        let xj = x[hi - 1];
        assert(gamma * rj == alpha * aj - beta * cj);
        assert(gamma * (dr + rj * xj) == gamma * dr + (gamma * rj) * xj) by (nonlinear_arith);
        assert((gamma * rj) * xj == (alpha * aj) * xj - (beta * cj) * xj) by (nonlinear_arith)
            requires
                gamma * rj == alpha * aj - beta * cj,
        ;
        assert(alpha * (da + aj * xj) == alpha * da + (alpha * aj) * xj) by (nonlinear_arith);
        assert(beta * (dc + cj * xj) == beta * dc + (beta * cj) * xj) by (nonlinear_arith);
    }
}

/// Rows that agree before `hi` give the same sum.
pub proof fn lemma_dot_same(a: Seq<int>, b: Seq<int>, x: Seq<int>, y: Seq<int>, lo: int, hi: int)
    requires
        forall|j: int| lo <= j < hi ==> a[j] * x[j] == b[j] * y[j],
    ensures
        range_dot(a, x, lo, hi) == range_dot(b, y, lo, hi),
    decreases hi - lo,
{
    if hi > lo {
        lemma_dot_same(a, b, x, y, lo, hi - 1);
    }
}

/// A sum splits at any point of its range.
proof fn lemma_dot_split(a: Seq<int>, x: Seq<int>, lo: int, mid: int, hi: int)
    requires
        lo <= mid <= hi,
    ensures
        range_dot(a, x, lo, hi) == range_dot(a, x, lo, mid) + range_dot(a, x, mid, hi),
    decreases hi - mid,
{
    if hi > mid {
        lemma_dot_split(a, x, lo, mid, hi - 1);
    }
}

/// A sum over zero coefficients is zero.
pub proof fn lemma_dot_zero(a: Seq<int>, x: Seq<int>, lo: int, hi: int)
    requires
        forall|j: int| lo <= j < hi ==> a[j] == 0,
    ensures
        range_dot(a, x, lo, hi) == 0,
    decreases hi - lo,
{
    if hi > lo {
        lemma_dot_zero(a, x, lo, hi - 1);
        assert(a[hi - 1] * x[hi - 1] == 0) by (nonlinear_arith)
            requires
                a[hi - 1] == 0,
        ;
    }
}

/// Raising one coefficient by one raises the sum by the value at its
/// place.
pub proof fn lemma_dot_bumped(a: Seq<int>, x: Seq<int>, c: int, lo: int, hi: int)
    requires
        0 <= lo <= c < hi <= a.len(),
    ensures
        range_dot(a.update(c, a[c] + 1), x, lo, hi) == range_dot(a, x, lo, hi) + x[c],
    decreases hi - lo,
{
    let b = a.update(c, a[c] + 1);
    if hi - 1 == c {
        assert forall|j: int| lo <= j < c implies b[j] * x[j] == a[j] * x[j] by {
            assert(b[j] == a[j]);
        }
        lemma_dot_same(b, a, x, x, lo, c);
        assert((a[c] + 1) * x[c] == a[c] * x[c] + x[c]) by (nonlinear_arith);
    } else {
        lemma_dot_bumped(a, x, c, lo, hi - 1);
        assert(b[hi - 1] == a[hi - 1]);
    }
}

/// A checked sum, where there is one, is the sum.
proof fn lemma_checked_dot(a: Seq<int>, x: Seq<int>, lo: int, hi: int)
    requires
        checked_dot(a, x, lo, hi) is Some,
    ensures
        checked_dot(a, x, lo, hi) == Some(range_dot(a, x, lo, hi)),
    decreases hi - lo,
{
    if hi > lo {
        lemma_checked_dot(a, x, lo, hi - 1);
    }
}

/// One elimination step loses no equation: what satisfies the matrix
/// after the step satisfies it before.
proof fn lemma_step_sound(m: Seq<Seq<int>>, n: int, k: int, prev: int, x: Seq<int>)
    requires
        shaped(m, n),
        0 <= k < n,
        k < m.len(),
        cleared(m, k),
        m[k][k] != 0,
        prev != 0,
        step_ok(m, k, prev),
        solves(step(m, k, prev), x, n),
    ensures
        solves(m, x, n),
{
    let s = step(m, k, prev);
    let pivot = m[k][k];
    assert forall|i: int| 0 <= i < m.len() implies range_dot(#[trigger] m[i], x, 0, n)
        == m[i][n] by {
        if i <= k {
            assert(s[i] == m[i]);
        } else {
            let r = s[i];
            let a = m[i];
            let c = m[k];
            assert(s[k] == c);
            assert(row_ok(a, c, k, prev));
            assert forall|j: int| 0 <= j < n + 1 implies prev * #[trigger] r[j] == pivot * a[j]
                - a[k] * c[j] by {
                if j < k {
                    assert(a[j] == 0);
                    assert(c[j] == 0);
                    assert(prev * 0 == pivot * 0 - a[k] * 0) by (nonlinear_arith);
                } else if j == k {
                    assert(prev * 0 == pivot * a[k] - a[k] * pivot) by (nonlinear_arith);
                } else {
                    let num = numerator(a, c, k, j);
                    assert(exact(num, prev));
                    lemma_quotient(num, prev);
                    assert(r[j] == quotient(num, prev));
                    assert(prev * r[j] == pivot * a[j] - a[k] * c[j]) by (nonlinear_arith)
                        requires
                            r[j] * prev == num,
                            num == a[j] * pivot - a[k] * c[j],
                    ;
                }
            }
            lemma_dot_combine(r, a, c, x, prev, pivot, a[k], n);
            let dr = range_dot(r, x, 0, n);
            let da = range_dot(a, x, 0, n);
            let dc = range_dot(c, x, 0, n);
            assert(dr == r[n]);
            assert(dc == c[n]);
            assert(prev * r[n] == pivot * a[n] - a[k] * c[n]);
            assert(da == a[n]) by (nonlinear_arith)
                requires
                    prev * dr == pivot * da - a[k] * dc,
                    prev * dr == pivot * a[n] - a[k] * dc,
                    pivot != 0,
            ;
        }
    }
}

/// After a step the next column is cleared too, and the shape is kept.
proof fn lemma_step_shape(m: Seq<Seq<int>>, n: int, k: int, prev: int)
    requires
        shaped(m, n),
        0 <= k < n,
        k < m.len(),
        cleared(m, k),
        triangular(m, k),
        m[k][k] != 0,
    ensures
        shaped(step(m, k, prev), n),
        cleared(step(m, k, prev), k + 1),
        triangular(step(m, k, prev), k + 1),
{
    let s = step(m, k, prev);
    assert forall|i: int| 0 <= i < s.len() implies (#[trigger] s[i]).len() == n + 1 by {
        assert(m[i].len() == n + 1);
    }
    assert forall|i: int, j: int| k + 1 <= i < s.len() && 0 <= j < k + 1 implies #[trigger] s[i][j]
        == 0 by {
        assert(m[i].len() == n + 1);
        if j < k {
            assert(m[i][j] == 0);
        }
    }
    assert forall|i: int| 0 <= i < k + 1 implies (#[trigger] s[i])[i] != 0 by {
        assert(s[i] == m[i]);
    }
    assert forall|i: int, j: int| 0 <= j < i < k + 1 implies #[trigger] s[i][j] == 0 by {
        assert(s[i] == m[i]);
        if i == k {
            assert(m[k][j] == 0);
        }
    }
}

/// Exchanging row `k` with a later row keeps what the earlier steps made.
proof fn lemma_swap_shape(m: Seq<Seq<int>>, n: int, k: int, p: int)
    requires
        shaped(m, n),
        0 <= k <= p < m.len(),
        cleared(m, k),
        triangular(m, k),
    ensures
        shaped(swapped(m, k, p), n),
        cleared(swapped(m, k, p), k),
        triangular(swapped(m, k, p), k),
{
    let s = swapped(m, k, p);
    assert forall|i: int| 0 <= i < s.len() implies (#[trigger] s[i]).len() == n + 1 by {
        assert(m[i].len() == n + 1);
        assert(m[k].len() == n + 1);
        assert(m[p].len() == n + 1);
    }
    assert forall|i: int, j: int| k <= i < s.len() && 0 <= j < k implies #[trigger] s[i][j]
        == 0 by {
        assert(m[i][j] == 0);
        assert(m[k][j] == 0);
        assert(m[p][j] == 0);
    }
    assert forall|i: int| 0 <= i < k implies (#[trigger] s[i])[i] != 0 by {
        assert(s[i] == m[i]);
    }
    assert forall|i: int, j: int| 0 <= j < i < k implies #[trigger] s[i][j] == 0 by {
        assert(s[i] == m[i]);
    }
}

proof fn lemma_swap_sound(m: Seq<Seq<int>>, n: int, k: int, p: int, x: Seq<int>)
    requires
        0 <= k <= p < m.len(),
        solves(swapped(m, k, p), x, n),
    ensures
        solves(m, x, n),
{
    let s = swapped(m, k, p);
    assert forall|i: int| 0 <= i < m.len() implies range_dot(#[trigger] m[i], x, 0, n)
        == m[i][n] by {
        if i == k {
            assert(s[p] == m[k]);
        } else if i == p {
            assert(s[k] == m[p]);
        } else {
            assert(s[i] == m[i]);
        }
    }
}

/// Elimination loses no equation, and leaves a matrix whose first `n`
/// rows are triangular and whose other rows hold only a right-hand side.
proof fn lemma_eliminate(m: Seq<Seq<int>>, n: int, k: int, prev: int)
    requires
        shaped(m, n),
        0 <= k <= n,
        cleared(m, k),
        triangular(m, k),
        prev != 0,
        eliminate(m, n, k, prev) is Some,
    ensures
        shaped(eliminate(m, n, k, prev)->0, n),
        eliminate(m, n, k, prev)->0.len() == m.len(),
        cleared(eliminate(m, n, k, prev)->0, n),
        triangular(eliminate(m, n, k, prev)->0, n),
        forall|x: Seq<int>| solves(eliminate(m, n, k, prev)->0, x, n) ==> solves(m, x, n),
    decreases n - k,
{
    if k < n {
        lemma_pivot_row(m, k, k);
        let p = pivot_row(m, k, k);
        let m1 = swapped(m, k, p);
        lemma_swap_shape(m, n, k, p);
        assert(m1[k] == m[p]);
        lemma_step_shape(m1, n, k, prev);
        let m2 = step(m1, k, prev);
        lemma_eliminate(m2, n, k + 1, m1[k][k]);
        let u = eliminate(m, n, k, prev)->0;
        assert forall|x: Seq<int>| solves(u, x, n) implies solves(m, x, n) by {
            lemma_step_sound(m1, n, k, prev, x);
            lemma_swap_sound(m, n, k, p, x);
        }
    }
}

/// Back-substitution on a triangular matrix yields values that satisfy
/// its first `n` rows.
proof fn lemma_back(m: Seq<Seq<int>>, n: int, i: int, x: Seq<int>)
    requires
        shaped(m, n),
        triangular(m, n),
        -1 <= i < n,
        x.len() == n,
        forall|r: int| i < r < n ==> range_dot(#[trigger] m[r], x, 0, n) == m[r][n],
        back(m, n, i, x) is Some,
    ensures
        back(m, n, i, x)->0.len() == n,
        forall|r: int|
            0 <= r < n ==> range_dot(#[trigger] m[r], back(m, n, i, x)->0, 0, n) == m[r][n],
    decreases i + 1,
{
    if i >= 0 {
        let row = m[i];
        assert(row.len() == n + 1);
        let v = unknown_of(row, x, i, n)->0;
        let s = checked_dot(row, x, i + 1, n)->0;
        lemma_checked_dot(row, x, i + 1, n);
        let rhs = row[n] - s;
        let d = row[i];
        lemma_quotient(rhs, d);
        let x1 = x.update(i, v);
        assert forall|r: int| i - 1 < r < n implies range_dot(#[trigger] m[r], x1, 0, n)
            == m[r][n] by {
            assert(m[r].len() == n + 1);
            if r == i {
                lemma_dot_split(row, x1, 0, i, n);
                lemma_dot_split(row, x1, i, i + 1, n);
                assert forall|j: int| 0 <= j < i implies row[j] == 0 by {
                    assert(m[i][j] == 0);
                }
                lemma_dot_zero(row, x1, 0, i);
                lemma_dot_same(row, row, x1, x, i + 1, n);
                assert(range_dot(row, x1, i, i + 1) == row[i] * x1[i]) by {
                    assert(range_dot(row, x1, i, i) == 0);
                }
                assert(row[i] * v == v * d) by (nonlinear_arith)
                    requires
                        d == row[i],
                ;
            } else {
                assert(m[r][i] == 0);
                assert forall|j: int| 0 <= j < n implies m[r][j] * x1[j] == m[r][j] * x[j] by {
                    if j == i {
                        assert(m[r][j] * x1[j] == m[r][j] * x[j]) by (nonlinear_arith)
                            requires
                                m[r][j] == 0,
                        ;
                    }
                }
                lemma_dot_same(m[r], m[r], x1, x, 0, n);
            }
        }
        lemma_back(m, n, i - 1, x1);
    }
}

/// What the solver returns satisfies every equation of the system.
pub proof fn lemma_solved_sound(m: Seq<Seq<int>>)
    requires
        solved(m) is Some,
    ensures
        solves(m, solved(m)->0, unknowns(m)),
        all_widths(solved(m)->0),
{
    let n = unknowns(m);
    let u = eliminated(m)->0;
    assert(cleared(m, 0));
    assert(triangular(m, 0));
    lemma_eliminate(m, n, 0, 1);
    let x = back(u, n, n - 1, zeros(n))->0;
    lemma_back(u, n, n - 1, zeros(n));
    assert(solves(u, x, n)) by {
        assert forall|i: int| 0 <= i < u.len() implies range_dot(#[trigger] u[i], x, 0, n)
            == u[i][n] by {
            if i >= n {
                assert(u[i].len() == n + 1);
                assert forall|j: int| 0 <= j < n implies u[i][j] == 0 by {}
                lemma_dot_zero(u[i], x, 0, n);
            }
        }
    }
}

/// What a reduced row times the divisor is, column by column.
proof fn lemma_reduced_row(a: Seq<int>, c: Seq<int>, k: int, prev: int)
    requires
        a.len() == c.len(),
        0 <= k < a.len(),
        prev != 0,
        row_ok(a, c, k, prev),
        forall|j: int| 0 <= j < k ==> a[j] == 0 && c[j] == 0,
    ensures
        forall|j: int|
            0 <= j < a.len() ==> prev * #[trigger] reduced_row(a, c, k, prev)[j] == c[k] * a[j]
                - a[k] * c[j],
{
    let r = reduced_row(a, c, k, prev);
    let pivot = c[k];
    assert forall|j: int| 0 <= j < a.len() implies prev * #[trigger] r[j] == pivot * a[j] - a[k]
        * c[j] by {
        if j < k {
            assert(prev * 0 == pivot * 0 - a[k] * 0) by (nonlinear_arith);
        } else if j == k {
            assert(prev * 0 == pivot * a[k] - a[k] * pivot) by (nonlinear_arith);
        } else {
            let num = numerator(a, c, k, j);
            assert(exact(num, prev));
            lemma_quotient(num, prev);
            assert(r[j] == quotient(num, prev));
            assert(prev * r[j] == pivot * a[j] - a[k] * c[j]) by (nonlinear_arith)
                requires
                    r[j] * prev == num,
                    num == a[j] * pivot - a[k] * c[j],
            ;
        }
    }
}

/// One elimination step keeps every solution.
proof fn lemma_step_complete(m: Seq<Seq<int>>, n: int, k: int, prev: int, x: Seq<int>)
    requires
        shaped(m, n),
        0 <= k < n,
        k < m.len(),
        cleared(m, k),
        prev != 0,
        step_ok(m, k, prev),
        solves(m, x, n),
    ensures
        solves(step(m, k, prev), x, n),
{
    let s = step(m, k, prev);
    assert forall|i: int| 0 <= i < s.len() implies range_dot(#[trigger] s[i], x, 0, n)
        == s[i][n] by {
        assert(m[i].len() == n + 1);
        assert(m[k].len() == n + 1);
        if i <= k {
            assert(s[i] == m[i]);
        } else {
            let r = s[i];
            let a = m[i];
            let c = m[k];
            assert(row_ok(a, c, k, prev));
            assert forall|j: int| 0 <= j < k implies a[j] == 0 && c[j] == 0 by {
                assert(m[i][j] == 0);
                assert(m[k][j] == 0);
            }
            lemma_reduced_row(a, c, k, prev);
            assert forall|j: int| 0 <= j < n implies prev * #[trigger] r[j] == c[k] * a[j] - a[k]
                * c[j] by {
                assert(r[j] == reduced_row(a, c, k, prev)[j]);
            }
            lemma_dot_combine(r, a, c, x, prev, c[k], a[k], n);
            let dr = range_dot(r, x, 0, n);
            let da = range_dot(a, x, 0, n);
            let dc = range_dot(c, x, 0, n);
            assert(da == a[n]);
            assert(dc == c[n]);
            assert(prev * reduced_row(a, c, k, prev)[n] == c[k] * a[n] - a[k] * c[n]);
            assert(dr == r[n]) by (nonlinear_arith)
                requires
                    prev * dr == c[k] * da - a[k] * dc,
                    prev * r[n] == c[k] * da - a[k] * dc,
                    prev != 0,
            ;
        }
    }
}

proof fn lemma_swap_complete(m: Seq<Seq<int>>, n: int, k: int, p: int, x: Seq<int>)
    requires
        0 <= k <= p < m.len(),
        solves(m, x, n),
    ensures
        solves(swapped(m, k, p), x, n),
{
    let s = swapped(m, k, p);
    assert forall|i: int| 0 <= i < s.len() implies range_dot(#[trigger] s[i], x, 0, n)
        == s[i][n] by {
        if i == k {
            assert(s[i] == m[p]);
        } else if i == p {
            assert(s[i] == m[k]);
        } else {
            assert(s[i] == m[i]);
        }
    }
}

/// Elimination keeps every solution.
proof fn lemma_eliminate_complete(m: Seq<Seq<int>>, n: int, k: int, prev: int, x: Seq<int>)
    requires
        shaped(m, n),
        0 <= k <= n,
        cleared(m, k),
        triangular(m, k),
        prev != 0,
        eliminate(m, n, k, prev) is Some,
        solves(m, x, n),
    ensures
        solves(eliminate(m, n, k, prev)->0, x, n),
    decreases n - k,
{
    if k < n {
        lemma_pivot_row(m, k, k);
        let p = pivot_row(m, k, k);
        let m1 = swapped(m, k, p);
        lemma_swap_shape(m, n, k, p);
        assert(m1[k] == m[p]);
        lemma_swap_complete(m, n, k, p, x);
        lemma_step_shape(m1, n, k, prev);
        lemma_step_complete(m1, n, k, prev, x);
        lemma_eliminate_complete(step(m1, k, prev), n, k + 1, m1[k][k], x);
    }
}

/// A triangular system with a non-zero diagonal has one solution at
/// most: two solutions that agree after place `i` agree everywhere.
proof fn lemma_triangular_unique(u: Seq<Seq<int>>, n: int, x: Seq<int>, t: Seq<int>, i: int)
    requires
        shaped(u, n),
        triangular(u, n),
        x.len() == n,
        t.len() == n,
        -1 <= i < n,
        forall|r: int| 0 <= r < n ==> range_dot(#[trigger] u[r], x, 0, n) == u[r][n],
        forall|r: int| 0 <= r < n ==> range_dot(#[trigger] u[r], t, 0, n) == u[r][n],
        forall|j: int| i < j < n ==> x[j] == t[j],
    ensures
        x == t,
    decreases i + 1,
{
    if i < 0 {
        assert(x =~= t);
    } else {
        let row = u[i];
        assert(row.len() == n + 1);
        assert forall|j: int| 0 <= j < i implies row[j] == 0 by {
            assert(u[i][j] == 0);
        }
        lemma_dot_split(row, x, 0, i, n);
        lemma_dot_split(row, x, i, i + 1, n);
        lemma_dot_zero(row, x, 0, i);
        lemma_dot_split(row, t, 0, i, n);
        lemma_dot_split(row, t, i, i + 1, n);
        lemma_dot_zero(row, t, 0, i);
        lemma_dot_same(row, row, x, t, i + 1, n);
        assert(range_dot(row, x, i, i + 1) == row[i] * x[i]) by {
            assert(range_dot(row, x, i, i) == 0);
        }
        assert(range_dot(row, t, i, i + 1) == row[i] * t[i]) by {
            assert(range_dot(row, t, i, i) == 0);
        }
        assert(range_dot(row, x, 0, n) == range_dot(row, t, 0, n));
        assert(x[i] == t[i]) by (nonlinear_arith)
            requires
                row[i] * x[i] == row[i] * t[i],
                row[i] != 0,
        ;
        lemma_triangular_unique(u, n, x, t, i - 1);
    }
}

/// Whatever the solver returns is the only solution of the system: any
/// values that satisfy every equation are the values returned.
pub proof fn lemma_solver_law(m: Seq<Seq<int>>, s: Seq<int>)
    requires
        solves(m, s, unknowns(m)),
        solved(m) is Some,
    ensures
        solved(m) == Some(s),
{
    let n = unknowns(m);
    let u = eliminated(m)->0;
    lemma_solved_sound(m);
    let x = solved(m)->0;
    assert(cleared(m, 0));
    assert(triangular(m, 0));
    lemma_eliminate(m, n, 0, 1);
    lemma_eliminate_complete(m, n, 0, 1, s);
    lemma_eliminate_complete(m, n, 0, 1, x);
    assert forall|r: int| 0 <= r < n implies range_dot(#[trigger] u[r], x, 0, n) == u[r][n] by {}
    assert forall|r: int| 0 <= r < n implies range_dot(#[trigger] u[r], s, 0, n) == u[r][n] by {}
    lemma_triangular_unique(u, n, x, s, n - 1);
}

/// Back-substitution can hold every sum it forms on the way to `x`.
pub open spec fn sums_held(u: Seq<Seq<int>>, x: Seq<int>, n: int) -> bool {
    forall|i: int| 0 <= i < n ==> checked_dot(#[trigger] u[i], x, i + 1, n) is Some
}

/// Every value is not negative and can be held as an entry.
pub open spec fn all_held(x: Seq<int>) -> bool {
    forall|j: int| 0 <= j < x.len() ==> 0 <= #[trigger] x[j] <= i64::MAX
}

/// A checked sum looks only at the values of its range.
proof fn lemma_checked_dot_same(a: Seq<int>, x: Seq<int>, y: Seq<int>, lo: int, hi: int)
    requires
        forall|j: int| lo <= j < hi ==> x[j] == y[j],
    ensures
        checked_dot(a, x, lo, hi) == checked_dot(a, y, lo, hi),
    decreases hi - lo,
{
    if hi > lo {
        lemma_checked_dot_same(a, x, y, lo, hi - 1);
    }
}

/// A product is divided exactly by its factor.
proof fn lemma_exact_product(d: int, v: int)
    requires
        d != 0,
    ensures
        exact(d * v, d),
        quotient(d * v, d) == v,
{
    let b = abs(d);
    let w = abs(v);
    assert(abs(d * v) == w * b) by (nonlinear_arith)
        requires
            b == abs(d),
            w == abs(v),
    ;
    vstd::arithmetic::div_mod::lemma_fundamental_div_mod_converse(w * b, b, w, 0);
    assert((d * v < 0) == ((d < 0) != (v < 0)) || v == 0) by (nonlinear_arith)
        requires
            d != 0,
    ;
}

/// Back-substitution on a triangular matrix finds the values that
/// satisfy its rows, where it can hold them and the sums on the way.
proof fn lemma_back_complete(u: Seq<Seq<int>>, n: int, i: int, x: Seq<int>, s: Seq<int>)
    requires
        shaped(u, n),
        triangular(u, n),
        -1 <= i < n,
        x.len() == n,
        s.len() == n,
        forall|r: int| 0 <= r < n ==> range_dot(#[trigger] u[r], s, 0, n) == u[r][n],
        forall|j: int| i < j < n ==> x[j] == s[j],
        all_held(s),
        sums_held(u, s, n),
    ensures
        back(u, n, i, x) == Some(s),
    decreases i + 1,
{
    if i < 0 {
        assert(x =~= s);
    } else {
        let row = u[i];
        assert(row.len() == n + 1);
        assert(checked_dot(row, s, i + 1, n) is Some);
        lemma_checked_dot_same(row, x, s, i + 1, n);
        lemma_checked_dot(row, s, i + 1, n);
        let sum = range_dot(row, s, i + 1, n);
        assert forall|j: int| 0 <= j < i implies row[j] == 0 by {
            assert(u[i][j] == 0);
        }
        lemma_dot_split(row, s, 0, i, n);
        lemma_dot_split(row, s, i, i + 1, n);
        lemma_dot_zero(row, s, 0, i);
        assert(range_dot(row, s, i, i + 1) == row[i] * s[i]) by {
            assert(range_dot(row, s, i, i) == 0);
        }
        assert(row[n] - sum == row[i] * s[i]);
        lemma_exact_product(row[i], s[i]);
        assert(unknown_of(row, x, i, n) == Some(s[i]));
        lemma_back_complete(u, n, i - 1, x.update(i, s[i]), s);
    }
}

/// Where elimination goes through, the solver answers: values that
/// satisfy every equation, that are widths the solver can hold, and on
/// the way to which back-substitution can hold its sums, are returned.
pub proof fn lemma_solver_answers(m: Seq<Seq<int>>, s: Seq<int>)
    requires
        solves(m, s, unknowns(m)),
        all_widths(s),
        all_held(s),
        eliminated(m) is Some,
        sums_held(eliminated(m)->0, s, unknowns(m)),
    ensures
        solved(m) == Some(s),
{
    let n = unknowns(m);
    let u = eliminated(m)->0;
    assert(cleared(m, 0));
    assert(triangular(m, 0));
    lemma_eliminate(m, n, 0, 1);
    lemma_eliminate_complete(m, n, 0, 1, s);
    assert(consistent(u, n)) by {
        assert forall|i: int| n <= i < u.len() implies (#[trigger] u[i])[n] == 0 by {
            assert(u[i].len() == n + 1);
            assert forall|j: int| 0 <= j < n implies u[i][j] == 0 by {}
            lemma_dot_zero(u[i], s, 0, n);
        }
    }
    assert forall|r: int| 0 <= r < n implies range_dot(#[trigger] u[r], s, 0, n) == u[r][n] by {}
    lemma_back_complete(u, n, n - 1, zeros(n), s);
}

/// Elimination from column `k` on comes to a column that has no pivot:
/// no row at or below the column's own holds a non-zero entry in it.
pub open spec fn stalls(m: Seq<Seq<int>>, n: int, k: int, prev: int) -> bool
    decreases n - k,
{
    if k >= n || k < 0 {
        false
    } else {
        let p = pivot_row(m, k, k);
        if p >= m.len() {
            true
        } else {
            let m1 = swapped(m, k, p);
            if !step_ok(m1, k, prev) {
                false
            } else {
                stalls(step(m1, k, prev), n, k + 1, m1[k][k])
            }
        }
    }
}

/// A sum whose terms are all `c` times the terms of another is `c` times
/// that sum.
proof fn lemma_dot_scaled(a: Seq<int>, x: Seq<int>, y: Seq<int>, c: int, lo: int, hi: int)
    requires
        forall|j: int| lo <= j < hi ==> #[trigger] (a[j] * x[j]) == c * (a[j] * y[j]),
    ensures
        range_dot(a, x, lo, hi) == c * range_dot(a, y, lo, hi),
    decreases hi - lo,
{
    if hi > lo {
        lemma_dot_scaled(a, x, y, c, lo, hi - 1);
        let p = range_dot(a, y, lo, hi - 1);
        let q = a[hi - 1] * y[hi - 1];
        assert(a[hi - 1] * x[hi - 1] == c * q);
        assert(c * p + c * q == c * (p + q)) by (nonlinear_arith);
    } else {
        assert(c * 0 == 0);
    }
}

/// A sum over the sums of two lists of values is the sum of the two sums.
proof fn lemma_dot_added(a: Seq<int>, x: Seq<int>, y: Seq<int>, z: Seq<int>, lo: int, hi: int)
    requires
        forall|j: int| lo <= j < hi ==> #[trigger] z[j] == x[j] + y[j],
    ensures
        range_dot(a, z, lo, hi) == range_dot(a, x, lo, hi) + range_dot(a, y, lo, hi),
    decreases hi - lo,
{
    if hi > lo {
        lemma_dot_added(a, x, y, z, lo, hi - 1);
        let j = hi - 1;
        assert(z[j] == x[j] + y[j]);
        assert(a[j] * z[j] == a[j] * x[j] + a[j] * y[j]) by (nonlinear_arith)
            requires
                z[j] == x[j] + y[j],
        ;
    }
}

/// Where column `k` has no pivot, the rows from `i` on are satisfied,
/// with a zero right-hand side, by values that are zero before place `i`
/// and after place `k` and not zero at place `k`.
proof fn lemma_kernel(m: Seq<Seq<int>>, n: int, k: int, i: int) -> (y: Seq<int>)
    requires
        shaped(m, n),
        0 <= i <= k < n,
        cleared(m, k),
        triangular(m, k),
        forall|r: int| k <= r < m.len() ==> (#[trigger] m[r])[k] == 0,
    ensures
        y.len() == n,
        y[k] != 0,
        forall|j: int| k < j < n ==> #[trigger] y[j] == 0,
        forall|j: int| 0 <= j < i ==> #[trigger] y[j] == 0,
        forall|r: int| i <= r < m.len() ==> range_dot(#[trigger] m[r], y, 0, n) == 0,
    decreases k - i,
{
    if i == k {
        let y = Seq::new(n as nat, |j: int| if j == k { 1int } else { 0int });
        let z = zeros(n + 1);
        assert forall|r: int| k <= r < m.len() implies range_dot(#[trigger] m[r], y, 0, n)
            == 0 by {
            assert(m[r].len() == n + 1);
            assert forall|j: int| 0 <= j < n implies m[r][j] * y[j] == z[j] * y[j] by {
                if j < k {
                    assert(m[r][j] == 0);
                } else if j == k {
                    assert(m[r][k] == 0);
                } else {
                    assert(y[j] == 0);
                    assert(m[r][j] * 0 == 0);
                    assert(z[j] * 0 == 0);
                }
            }
            lemma_dot_same(m[r], z, y, y, 0, n);
            lemma_dot_zero(z, y, 0, n);
        }
        y
    } else {
        let old = lemma_kernel(m, n, k, i + 1);
        let row = m[i];
        let d = row[i];
        assert(row.len() == n + 1);
        assert(d != 0);
        let sum = range_dot(row, old, i + 1, n);
        let y = Seq::new(n as nat, |j: int| if j == i { -sum } else { d * old[j] });
        assert(y[k] != 0) by (nonlinear_arith)
            requires
                y[k] == d * old[k],
                d != 0,
                old[k] != 0,
        ;
        assert forall|j: int| k < j < n implies #[trigger] y[j] == 0 by {
            assert(old[j] == 0);
            assert(d * 0 == 0);
        }
        assert forall|j: int| 0 <= j < i implies #[trigger] y[j] == 0 by {
            assert(old[j] == 0);
            assert(d * 0 == 0);
        }
        assert forall|r: int| i <= r < m.len() implies range_dot(#[trigger] m[r], y, 0, n)
            == 0 by {
            let a = m[r];
            assert(a.len() == n + 1);
            if r == i {
                assert forall|j: int| 0 <= j < i implies a[j] == 0 by {
                    assert(m[i][j] == 0);
                }
                lemma_dot_split(a, y, 0, i, n);
                lemma_dot_split(a, y, i, i + 1, n);
                lemma_dot_zero(a, y, 0, i);
                assert(range_dot(a, y, i, i + 1) == a[i] * y[i]) by {
                    assert(range_dot(a, y, i, i) == 0);
                }
                assert forall|j: int| i + 1 <= j < n implies #[trigger] (a[j] * y[j]) == d * (a[j]
                    * old[j]) by {
                    assert(y[j] == d * old[j]);
                    assert(a[j] * (d * old[j]) == d * (a[j] * old[j])) by (nonlinear_arith);
                }
                lemma_dot_scaled(a, y, old, d, i + 1, n);
                assert(d * (-sum) + d * sum == 0) by (nonlinear_arith);
            } else {
                assert(a[i] == 0) by {
                    assert(m[r][i] == 0);
                }
                assert forall|j: int| 0 <= j < n implies #[trigger] (a[j] * y[j]) == d * (a[j]
                    * old[j]) by {
                    if j == i {
                        assert(old[i] == 0);
                        assert(a[j] * y[j] == 0) by (nonlinear_arith)
                            requires
                                a[j] == 0,
                        ;
                        assert(d * (a[j] * old[j]) == 0) by (nonlinear_arith)
                            requires
                                a[j] == 0,
                        ;
                    } else {
                        assert(y[j] == d * old[j]);
                        assert(a[j] * (d * old[j]) == d * (a[j] * old[j])) by (nonlinear_arith);
                    }
                }
                lemma_dot_scaled(a, y, old, d, 0, n);
                assert(range_dot(a, old, 0, n) == 0);
                assert(d * 0 == 0);
            }
        }
        y
    }
}

/// Where elimination comes to a column without a pivot, the system has
/// more than one solution if it has any.
proof fn lemma_stalled(m: Seq<Seq<int>>, n: int, k: int, prev: int, s: Seq<int>) -> (t: Seq<int>)
    requires
        shaped(m, n),
        0 <= k <= n,
        cleared(m, k),
        triangular(m, k),
        prev != 0,
        solves(m, s, n),
        stalls(m, n, k, prev),
    ensures
        solves(m, t, n),
        t != s,
    decreases n - k,
{
    lemma_pivot_row(m, k, k);
    let p = pivot_row(m, k, k);
    if p >= m.len() {
        let y = lemma_kernel(m, n, k, 0);
        let t = Seq::new(n as nat, |j: int| s[j] + y[j]);
        assert forall|i: int| 0 <= i < m.len() implies range_dot(#[trigger] m[i], t, 0, n)
            == m[i][n] by {
            lemma_dot_added(m[i], s, y, t, 0, n);
        }
        assert(t[k] != s[k]);
        t
    } else {
        let m1 = swapped(m, k, p);
        lemma_swap_shape(m, n, k, p);
        assert(m1[k] == m[p]);
        lemma_swap_complete(m, n, k, p, s);
        lemma_step_shape(m1, n, k, prev);
        lemma_step_complete(m1, n, k, prev, s);
        let t = lemma_stalled(step(m1, k, prev), n, k + 1, m1[k][k], s);
        lemma_step_sound(m1, n, k, prev, t);
        lemma_swap_sound(m, n, k, p, t);
        t
    }
}

/// A system with exactly one solution has a pivot for every column:
/// elimination fails on it only where a division is not exact or a
/// value cannot be held.
pub proof fn lemma_unique_never_stalls(m: Seq<Seq<int>>, s: Seq<int>)
    requires
        well_shaped(m),
        solves(m, s, unknowns(m)),
        forall|t: Seq<int>| solves(m, t, unknowns(m)) ==> t == s,
    ensures
        !stalls(m, unknowns(m), 0, 1),
{
    let n = unknowns(m);
    if stalls(m, n, 0, 1) {
        assert(cleared(m, 0));
        assert(triangular(m, 0));
        let t = lemma_stalled(m, n, 0, 1, s);
        assert(t == s);
    }
}

/// Every division that elimination from column `k` on comes to is exact,
/// and every entry it makes can be held.
pub open spec fn divides(m: Seq<Seq<int>>, n: int, k: int, prev: int) -> bool
    decreases n - k,
{
    if k >= n || k < 0 {
        true
    } else {
        let p = pivot_row(m, k, k);
        if p >= m.len() {
            true
        } else {
            let m1 = swapped(m, k, p);
            step_ok(m1, k, prev) && divides(step(m1, k, prev), n, k + 1, m1[k][k])
        }
    }
}

/// Elimination goes through where it finds a pivot for every column and
/// can make every division.
proof fn lemma_goes_through(m: Seq<Seq<int>>, n: int, k: int, prev: int)
    requires
        !stalls(m, n, k, prev),
        divides(m, n, k, prev),
    ensures
        eliminate(m, n, k, prev) is Some,
    decreases n - k,
{
    if 0 <= k < n {
        let p = pivot_row(m, k, k);
        let m1 = swapped(m, k, p);
        lemma_goes_through(step(m1, k, prev), n, k + 1, m1[k][k]);
    }
}

/// The solver answers every system that has exactly one solution in
/// widths, where the divisions of the elimination are exact and the
/// values on the way can be held: it returns that solution.
pub proof fn lemma_solver_complete(m: Seq<Seq<int>>, s: Seq<int>)
    requires
        well_shaped(m),
        solves(m, s, unknowns(m)),
        forall|t: Seq<int>| solves(m, t, unknowns(m)) ==> t == s,
        all_widths(s),
        all_held(s),
        divides(m, unknowns(m), 0, 1),
        eliminated(m) is Some ==> sums_held(eliminated(m)->0, s, unknowns(m)),
    ensures
        solved(m) == Some(s),
{
    lemma_unique_never_stalls(m, s);
    lemma_goes_through(m, unknowns(m), 0, 1);
    lemma_solver_answers(m, s);
}

proof fn lemma_product_bound(a: int, b: int)
    requires
        fits(a),
        fits(b),
    ensures
        -0x4000_0000_0000_0000_0000_0000_0000_0000 <= a * b
            <= 0x4000_0000_0000_0000_0000_0000_0000_0000,
{
    let lim: int = 0x8000_0000_0000_0000;
    assert(-lim <= a <= lim && -lim <= b <= lim);
    assert(-(lim * lim) <= a * b <= lim * lim) by (nonlinear_arith)
        requires
            -lim <= a <= lim,
            -lim <= b <= lim,
            lim >= 0,
    ;
    assert(lim * lim == 0x4000_0000_0000_0000_0000_0000_0000_0000) by (nonlinear_arith)
        requires
            lim == 0x8000_0000_0000_0000,
    ;
}

/// `num / den` where the division is exact and the quotient can be held.
fn divide(num: i128, den: i64) -> (r: Option<i64>)
    requires
        den != 0,
        -0x7fff_ffff_ffff_ffff_ffff_ffff_ffff_ffff <= num <= 0x7fff_ffff_ffff_ffff_ffff_ffff_ffff_ffff,
    ensures
        r is Some <==> exact(num as int, den as int) && fits(quotient(num as int, den as int)),
        r matches Some(q) ==> q == quotient(num as int, den as int),
{
    let an: i128 = if num < 0 {
        -num
    } else {
        num
    };
    let d: i128 = den as i128;
    let ad: i128 = if d < 0 {
        -d
    } else {
        d
    };
    if an % ad != 0 {
        return None;
    }
    let q: i128 = an / ad;
    let sq: i128 = if (num < 0) != (den < 0) {
        -q
    } else {
        q
    };
    if sq < i64::MIN as i128 || sq > i64::MAX as i128 {
        return None;
    }
    Some(sq as i64)
}

fn copy_row(row: &Vec<i64>) -> (r: Vec<i64>)
    ensures
        r@ == row@,
{
    let mut out: Vec<i64> = Vec::new();
    let mut j: usize = 0;
    while j < row.len()
        invariant
            j <= row.len(),
            out@ == row@.take(j as int),
        decreases row.len() - j,
    {
        out.push(row[j]);
        j += 1;
        assert(out@ =~= row@.take(j as int));
    }
    assert(row@.take(row.len() as int) =~= row@);
    out
}

fn copy_matrix(m: &Vec<Vec<i64>>) -> (r: Vec<Vec<i64>>)
    ensures
        matrix(r@) == matrix(m@),
        r@.len() == m@.len(),
        forall|i: int| 0 <= i < m@.len() ==> (#[trigger] r@[i])@ == m@[i]@,
{
    let mut out: Vec<Vec<i64>> = Vec::new();
    let mut i: usize = 0;
    while i < m.len()
        invariant
            i <= m.len(),
            out@.len() == i,
            forall|t: int| 0 <= t < i ==> (#[trigger] out@[t])@ == m@[t]@,
        decreases m.len() - i,
    {
        out.push(copy_row(&m[i]));
        i += 1;
    }
    assert(matrix(out@) =~= matrix(m@));
    out
}

/// Whether the rows have one length, which is not zero.
fn shape_of(m: &Vec<Vec<i64>>) -> (r: Option<usize>)
    ensures
        r is Some <==> well_shaped(matrix(m@)),
        r matches Some(n) ==> n == unknowns(matrix(m@)),
{
    let ghost mm = matrix(m@);
    if m.len() == 0 {
        return Some(0);
    }
    assert(mm[0].len() == m@[0]@.len());
    if m[0].len() == 0 {
        return None;
    }
    let first = m[0].len();
    let n = first - 1;
    let mut i: usize = 0;
    while i < m.len()
        invariant
            i <= m.len(),
            mm == matrix(m@),
            n == unknowns(mm),
            first == n + 1,
            forall|t: int| 0 <= t < i ==> (#[trigger] mm[t]).len() == n + 1,
        decreases m.len() - i,
    {
        assert(mm[i as int].len() == m@[i as int]@.len());
        if m[i].len() != first {
            return None;
        }
        i += 1;
    }
    Some(n)
}

fn find_pivot(m: &Vec<Vec<i64>>, n: usize, k: usize) -> (r: usize)
    requires
        shaped(matrix(m@), n as int),
        k < n,
        k <= m@.len(),
    ensures
        r == pivot_row(matrix(m@), k as int, k as int),
        k <= r <= m@.len(),
{
    let ghost mm = matrix(m@);
    let mut i: usize = k;
    proof {
        lemma_pivot_row(mm, k as int, k as int);
    }
    while i < m.len()
        invariant
            k <= i <= m.len(),
            mm == matrix(m@),
            shaped(mm, n as int),
            k < n,
            pivot_row(mm, k as int, k as int) == pivot_row(mm, k as int, i as int),
        decreases m.len() - i,
    {
        assert(mm[i as int].len() == n + 1);
        assert(mm[i as int][k as int] == m@[i as int]@[k as int]);
        if m[i][k] != 0 {
            return i;
        }
        i += 1;
    }
    i
}

fn swap_rows(m: &mut Vec<Vec<i64>>, a: usize, b: usize)
    requires
        a < old(m)@.len(),
        b < old(m)@.len(),
    ensures
        matrix(final(m)@) == swapped(matrix(old(m)@), a as int, b as int),
        final(m)@.len() == old(m)@.len(),
{
    let ra = copy_row(&m[a]);
    let rb = copy_row(&m[b]);
    m[a] = rb;
    m[b] = ra;
    assert(matrix(m@) =~= swapped(matrix(old(m)@), a as int, b as int));
}

fn reduce_row(ri: &Vec<i64>, rk: &Vec<i64>, k: usize, prev: i64) -> (r: Option<Vec<i64>>)
    requires
        ri@.len() == rk@.len(),
        k < ri@.len(),
        prev != 0,
    ensures
        r is Some <==> row_ok(ints(ri@), ints(rk@), k as int, prev as int),
        r matches Some(v) ==> ints(v@) == reduced_row(ints(ri@), ints(rk@), k as int, prev as int),
{
    let ghost a = ints(ri@);
    let ghost c = ints(rk@);
    let mut out: Vec<i64> = Vec::new();
    let mut j: usize = 0;
    let pivot: i128 = rk[k] as i128;
    let below: i128 = ri[k] as i128;
    while j < ri.len()
        invariant
            j <= ri@.len(),
            ri@.len() == rk@.len(),
            k < ri@.len(),
            prev != 0,
            a == ints(ri@),
            c == ints(rk@),
            pivot == c[k as int],
            below == a[k as int],
            out@.len() == j,
            forall|t: int|
                k < t < j ==> exact(#[trigger] numerator(a, c, k as int, t), prev as int) && fits(
                    quotient(numerator(a, c, k as int, t), prev as int),
                ),
            forall|t: int|
                0 <= t < j ==> (#[trigger] out@[t]) as int == reduced_row(
                    a,
                    c,
                    k as int,
                    prev as int,
                )[t],
        decreases ri@.len() - j,
    {
        if j < k {
            out.push(ri[j]);
        } else if j == k {
            out.push(0);
        } else {
            let x: i128 = ri[j] as i128;
            let y: i128 = rk[j] as i128;
            proof {
                lemma_product_bound(x as int, pivot as int);
                lemma_product_bound(below as int, y as int);
                lemma_numerator_bound(x as int, pivot as int, below as int, y as int);
            }
            let term1: i128 = x * pivot;
            let term2: i128 = below * y;
            let num: i128 = term1 - term2;
            assert(num == numerator(a, c, k as int, j as int));
            match divide(num, prev) {
                Some(q) => {
                    out.push(q);
                },
                None => {
                    return None;
                },
            }
        }
        j += 1;
    }
    assert(ints(out@) =~= reduced_row(a, c, k as int, prev as int));
    Some(out)
}

proof fn lemma_numerator_bound(x: int, p: int, b: int, y: int)
    requires
        fits(x),
        fits(p),
        fits(b),
        fits(y),
    ensures
        -0x7fff_ffff_ffff_ffff_ffff_ffff_ffff_ffff <= x * p - b * y
            <= 0x7fff_ffff_ffff_ffff_ffff_ffff_ffff_ffff,
{
    let lim: int = 0x8000_0000_0000_0000;
    // A product reaches `lim * lim` only for two lowest values, and is
    // otherwise kept from `-lim * lim` by `lim`.
    assert(-(lim * (lim - 1)) <= x * p <= lim * lim) by (nonlinear_arith)
        requires
            -lim <= x <= lim - 1,
            -lim <= p <= lim - 1,
            lim >= 1,
    ;
    assert(-(lim * (lim - 1)) <= b * y <= lim * lim) by (nonlinear_arith)
        requires
            -lim <= b <= lim - 1,
            -lim <= y <= lim - 1,
            lim >= 1,
    ;
    assert(lim * lim == 0x4000_0000_0000_0000_0000_0000_0000_0000) by (nonlinear_arith)
        requires
            lim == 0x8000_0000_0000_0000,
    ;
    assert(lim * (lim - 1) == 0x4000_0000_0000_0000_0000_0000_0000_0000 - 0x8000_0000_0000_0000)
        by (nonlinear_arith)
        requires
            lim == 0x8000_0000_0000_0000,
    ;
}

/// One elimination step on the rows below row `k`.
fn reduce(m: &Vec<Vec<i64>>, n: usize, k: usize, prev: i64) -> (r: Option<Vec<Vec<i64>>>)
    requires
        shaped(matrix(m@), n as int),
        k < n,
        k < m@.len(),
        prev != 0,
    ensures
        r is Some <==> step_ok(matrix(m@), k as int, prev as int),
        r matches Some(v) ==> matrix(v@) == step(matrix(m@), k as int, prev as int),
{
    let ghost mm = matrix(m@);
    let mut out: Vec<Vec<i64>> = Vec::new();
    let mut i: usize = 0;
    while i < m.len()
        invariant
            i <= m@.len(),
            mm == matrix(m@),
            shaped(mm, n as int),
            k < n,
            k < m@.len(),
            prev != 0,
            out@.len() == i,
            forall|t: int| k < t < i ==> row_ok(#[trigger] mm[t], mm[k as int], k as int, prev as int),
            forall|t: int|
                0 <= t < i ==> ints((#[trigger] out@[t])@) == step(mm, k as int, prev as int)[t],
        decreases m@.len() - i,
    {
        assert(mm[i as int].len() == n + 1);
        assert(mm[k as int].len() == n + 1);
        assert(mm[i as int] == ints(m@[i as int]@));
        assert(mm[k as int] == ints(m@[k as int]@));
        if i <= k {
            out.push(copy_row(&m[i]));
        } else {
            match reduce_row(&m[i], &m[k], k, prev) {
                Some(row) => {
                    out.push(row);
                },
                None => {
                    return None;
                },
            }
        }
        i += 1;
    }
    assert(matrix(out@) =~= step(mm, k as int, prev as int));
    Some(out)
}

fn rows_consistent(m: &Vec<Vec<i64>>, n: usize) -> (r: bool)
    requires
        shaped(matrix(m@), n as int),
    ensures
        r == consistent(matrix(m@), n as int),
{
    let ghost mm = matrix(m@);
    let mut i: usize = n;
    while i < m.len()
        invariant
            n <= i,
            mm == matrix(m@),
            shaped(mm, n as int),
            forall|t: int| n <= t < i && t < mm.len() ==> (#[trigger] mm[t])[n as int] == 0,
        decreases m@.len() - i,
    {
        assert(mm[i as int].len() == n + 1);
        assert(mm[i as int][n as int] == m@[i as int]@[n as int]);
        if m[i][n] != 0 {
            return false;
        }
        i += 1;
    }
    true
}

/// The value of unknown `i` from row `i`.
fn solve_row(row: &Vec<i64>, x: &Vec<i64>, i: usize, n: usize) -> (r: Option<i64>)
    requires
        row@.len() == n + 1,
        x@.len() == n,
        i < n,
    ensures
        r == match unknown_of(ints(row@), ints(x@), i as int, n as int) {
            Some(v) => Some(v as i64),
            None => None,
        },
        r matches Some(v) ==> unknown_of(ints(row@), ints(x@), i as int, n as int) == Some(
            v as int,
        ),
{
    let ghost a = ints(row@);
    let ghost xs = ints(x@);
    let mut sum: i128 = 0;
    let mut j: usize = i + 1;
    while j < n
        invariant
            i < j <= n,
            row@.len() == n + 1,
            x@.len() == n,
            a == ints(row@),
            xs == ints(x@),
            checked_dot(a, xs, i + 1, j as int) == Some(sum as int),
            -sum_limit() <= sum <= sum_limit(),
        decreases n - j,
    {
        let c: i128 = row[j] as i128;
        let v: i128 = x[j] as i128;
        proof {
            lemma_product_bound(c as int, v as int);
        }
        let term: i128 = c * v;
        let next: i128 = sum + term;
        if next < -0x2000_0000_0000_0000_0000_0000_0000_0000 || next
            > 0x2000_0000_0000_0000_0000_0000_0000_0000 {
            proof {
                lemma_checked_dot_fails(a, xs, i + 1, j + 1, n as int);
            }
            return None;
        }
        sum = next;
        j += 1;
    }
    let rhs: i128 = row[n] as i128 - sum;
    let d = row[i];
    if d == 0 {
        return None;
    }
    divide(rhs, d)
}

/// A checked sum that has failed stays failed when more terms follow.
proof fn lemma_checked_dot_fails(a: Seq<int>, x: Seq<int>, lo: int, mid: int, hi: int)
    requires
        lo <= mid <= hi,
        checked_dot(a, x, lo, mid) is None,
    ensures
        checked_dot(a, x, lo, hi) is None,
    decreases hi - mid,
{
    if hi > mid {
        lemma_checked_dot_fails(a, x, lo, mid, hi - 1);
    }
}

fn back_substitute(m: &Vec<Vec<i64>>, n: usize) -> (r: Option<Vec<i64>>)
    requires
        shaped(matrix(m@), n as int),
        n <= m@.len(),
    ensures
        r is Some <==> back(matrix(m@), n as int, n - 1, zeros(n as int)) is Some,
        r matches Some(x) ==> Some(ints(x@)) == back(
            matrix(m@),
            n as int,
            n - 1,
            zeros(n as int),
        ),
{
    let ghost mm = matrix(m@);
    let mut x: Vec<i64> = Vec::new();
    let mut t: usize = 0;
    while t < n
        invariant
            t <= n,
            x@.len() == t,
            forall|j: int| 0 <= j < t ==> x@[j] == 0,
        decreases n - t,
    {
        x.push(0);
        t += 1;
    }
    assert(ints(x@) =~= zeros(n as int));
    let mut i: usize = n;
    while i > 0
        invariant
            i <= n,
            n <= m@.len(),
            mm == matrix(m@),
            shaped(mm, n as int),
            x@.len() == n,
            back(mm, n as int, i - 1, ints(x@)) == back(mm, n as int, n - 1, zeros(n as int)),
        decreases i,
    {
        i -= 1;
        assert(mm[i as int].len() == n + 1);
        assert(mm[i as int] == ints(m@[i as int]@));
        match solve_row(&m[i], &x, i, n) {
            Some(v) => {
                let ghost before = ints(x@);
                x[i] = v;
                assert(ints(x@) =~= before.update(i as int, v as int));
            },
            None => {
                return None;
            },
        }
    }
    Some(x)
}

/// Whether every value is a width, and the values as widths.
fn as_widths(x: &Vec<i64>) -> (r: Option<Vec<usize>>)
    ensures
        r is Some <==> all_widths(ints(x@)),
        r matches Some(w) ==> widths(w@) == ints(x@),
{
    let mut out: Vec<usize> = Vec::new();
    let mut j: usize = 0;
    while j < x.len()
        invariant
            j <= x.len(),
            out@.len() == j,
            forall|t: int| 0 <= t < j ==> 0 <= #[trigger] ints(x@)[t] <= usize::MAX,
            forall|t: int| 0 <= t < j ==> (#[trigger] out@[t]) as int == x@[t],
        decreases x.len() - j,
    {
        let v = x[j];
        assert(ints(x@)[j as int] == v);
        if v < 0 || v as u64 > usize::MAX as u64 {
            return None;
        }
        out.push(v as usize);
        j += 1;
    }
    assert(widths(out@) =~= ints(x@));
    Some(out)
}

/// Systems of linear equations that can be solved for widths.
pub trait SolveFunc {
    /// The augmented matrix of the system.
    spec fn equations(&self) -> Seq<Seq<int>>;

    /// Solves the system. On success the values satisfy every equation,
    /// nothing else does, and the matrix is left as elimination made it;
    /// otherwise the matrix is left as it was.
    fn solve(&mut self) -> (r: Option<Vec<usize>>)
        ensures
            r is Some <==> solved(old(self).equations()) is Some,
            r matches Some(x) ==> Some(widths(x@)) == solved(old(self).equations()) && solves(
                old(self).equations(),
                widths(x@),
                unknowns(old(self).equations()),
            ) && Some(final(self).equations()) == eliminated(old(self).equations()),
            r matches Some(x) ==> forall|t: Seq<int>| #[trigger]
                solves(old(self).equations(), t, unknowns(old(self).equations())) ==> t
                    == widths(x@),
            r is None ==> final(self).equations() == old(self).equations(),
    ;
}

impl SolveFunc for Vec<Vec<i64>> {
    open spec fn equations(&self) -> Seq<Seq<int>> {
        matrix(self@)
    }

    fn solve(&mut self) -> (r: Option<Vec<usize>>) {
        let ghost m0 = matrix(self@);
        let n = match shape_of(self) {
            Some(n) => n,
            None => {
                return None;
            },
        };
        let mut m = copy_matrix(self);
        let mut prev: i64 = 1;
        let mut k: usize = 0;
        while k < n
            invariant
                k <= n,
                n == unknowns(m0),
                well_shaped(m0),
                m0 == matrix(old(self)@),
                *self == *old(self),
                shaped(matrix(m@), n as int),
                k <= m@.len(),
                prev != 0,
                eliminate(matrix(m@), n as int, k as int, prev as int) == eliminate(
                    m0,
                    n as int,
                    0,
                    1,
                ),
            decreases n - k,
        {
            let ghost mk = matrix(m@);
            let p = find_pivot(&m, n, k);
            if p >= m.len() {
                return None;
            }
            swap_rows(&mut m, k, p);
            let ghost m1 = matrix(m@);
            proof {
                assert forall|i: int| 0 <= i < m1.len() implies (#[trigger] m1[i]).len() == n
                    + 1 by {
                    assert(mk[i].len() == n + 1);
                    assert(mk[k as int].len() == n + 1);
                    assert(mk[p as int].len() == n + 1);
                }
                lemma_pivot_row(mk, k as int, k as int);
                assert(m1[k as int] == mk[p as int]);
                assert(m1[k as int].len() == n + 1);
                assert(m1[k as int][k as int] == m@[k as int]@[k as int]);
            }
            let pivot = m[k][k];
            match reduce(&m, n, k, prev) {
                Some(next) => {
                    m = next;
                },
                None => {
                    return None;
                },
            }
            proof {
                let s = step(m1, k as int, prev as int);
                assert forall|i: int| 0 <= i < s.len() implies (#[trigger] s[i]).len() == n
                    + 1 by {
                    assert(m1[i].len() == n + 1);
                }
            }
            prev = pivot;
            k += 1;
        }
        if !rows_consistent(&m, n) {
            return None;
        }
        let x = match back_substitute(&m, n) {
            Some(x) => x,
            None => {
                return None;
            },
        };
        let res = match as_widths(&x) {
            Some(w) => w,
            None => {
                return None;
            },
        };
        proof {
            lemma_solved_sound(m0);
            assert forall|t: Seq<int>| #[trigger] solves(m0, t, unknowns(m0)) implies t
                == widths(res@) by {
                lemma_solver_law(m0, t);
            }
        }
        *self = m;
        Some(res)
    }
}

} // verus!
