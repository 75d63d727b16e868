//! Normalisation of the last axis in one pass over each row.
//!
//! The arithmetic comes in as closures on scalars. The formula that they are
//! put into is fixed here: the mean of the row and of its squares, the inverse
//! deviation, and from them each output element.
use crate::blocks;
use crate::nn::fold;
use crate::nn::init;
use crate::nn::meaning;
use crate::nn::meaning::Num;
use crate::nn::single;
use vstd::prelude::*;
use vstd::slice::slice_subrange;

verus! {

/// From this number of rows on, rows are bundled into tasks.
pub const PARALLEL_OUTER_MIN: usize = 64;

/// Rows of a bundled task.
pub const ROWS_PER_TASK: usize = 16;

/// Row at which task `i` starts when nothing is cut off.
pub open spec fn task_start(outer: int, i: int) -> int {
    if outer >= PARALLEL_OUTER_MIN {
        ROWS_PER_TASK * i
    } else {
        i
    }
}

/// The rows of task `i`, from the first up to the second.
pub open spec fn task(outer: int, i: int) -> (usize, usize) {
    let end = task_start(outer, i + 1);
    (task_start(outer, i) as usize, (if end <= outer { end } else { outer }) as usize)
}

/// Number of tasks.
pub open spec fn task_count(outer: int) -> int {
    if outer >= PARALLEL_OUTER_MIN {
        (outer + ROWS_PER_TASK - 1) / (ROWS_PER_TASK as int)
    } else {
        outer
    }
}

/// The tasks for `outer` rows.
pub open spec fn tasks(outer: int) -> Seq<(usize, usize)> {
    Seq::new(task_count(outer) as nat, |i: int| task(outer, i))
}

/// Splits `outer` rows into tasks: bundles for many rows, single rows for few.
pub fn row_tasks(outer: usize) -> (r: Vec<(usize, usize)>)
    ensures
        r@ == tasks(outer as int),
{
    let span: usize = if outer >= PARALLEL_OUTER_MIN {
        ROWS_PER_TASK
    } else {
        1
    };
    let mut r: Vec<(usize, usize)> = Vec::new();
    let mut start: usize = 0;
    let ghost mut k: int = 0;
    while start < outer
        invariant
            start <= outer,
            span == if outer >= PARALLEL_OUTER_MIN { 16int } else { 1 },
            0 <= k,
            start == if task_start(outer as int, k) <= outer {
                task_start(outer as int, k)
            } else {
                outer as int
            },
            start < outer ==> k < task_count(outer as int),
            start == outer ==> k == task_count(outer as int),
            r@ == Seq::new(k as nat, |i: int| task(outer as int, i)),
        decreases outer - start,
    {
        let end: usize = if outer - start < span {
            outer
        } else {
            start + span
        };
        r.push((start, end));
        proof {
            assert(task(outer as int, k) == (start, end));
            assert(r@ =~= Seq::new((k + 1) as nat, |i: int| task(outer as int, i)));
            k = k + 1;
        }
        start = end;
    }
    r
}

/// The tasks follow each other without gap or overlap and end at the last row.
pub proof fn law_tasks_partition(outer: usize)
    ensures
        tasks(outer as int).len() > 0 <==> outer > 0,
        outer > 0 ==> tasks(outer as int)[0].0 == 0 && tasks(outer as int).last().1 == outer,
        forall|i: int|
            0 <= i < tasks(outer as int).len() ==> (#[trigger] tasks(outer as int)[i]).0 < tasks(
                outer as int,
            )[i].1 <= outer,
        forall|i: int|
            0 < i < tasks(outer as int).len() ==> (#[trigger] tasks(outer as int)[i]).0 == tasks(
                outer as int,
            )[i - 1].1,
{
}

/// Every row belongs to exactly one task.
pub proof fn law_row_has_one_task(outer: usize, row: int)
    requires
        0 <= row < outer,
    ensures
        ({
            let i = if outer >= PARALLEL_OUTER_MIN { row / (ROWS_PER_TASK as int) } else { row };
            &&& 0 <= i < tasks(outer as int).len()
            &&& forall|j: int|
                0 <= j < tasks(outer as int).len() ==> (((#[trigger] tasks(outer as int)[j]).0
                    <= row < tasks(outer as int)[j].1) <==> i == j)
        }),
{
}

/// The arithmetic of a row.
pub struct NormArith<T, A, B, M, X, N, Q> {
    /// Start of a sum, and the least variance.
    pub zero: T,
    /// `a + b`.
    pub plus: A,
    /// `a - b`.
    pub minus: B,
    /// `a * b`.
    pub times: M,
    /// The larger of two.
    pub max: X,
    /// `1 / count`.
    pub inv_count: N,
    /// `1 / sqrt(a)`.
    pub inv_sqrt: Q,
}

/// The closures may be called on anything.
pub open spec fn total<
    T,
    A: Fn(T, T) -> T,
    B: Fn(T, T) -> T,
    M: Fn(T, T) -> T,
    X: Fn(T, T) -> T,
    N: Fn(usize) -> T,
    Q: Fn(T) -> T,
>(k: NormArith<T, A, B, M, X, N, Q>) -> bool {
    &&& forall|a: T, b: T| #[trigger] call_requires(k.plus, (a, b))
    &&& forall|a: T, b: T| #[trigger] call_requires(k.minus, (a, b))
    &&& forall|a: T, b: T| #[trigger] call_requires(k.times, (a, b))
    &&& forall|a: T, b: T| #[trigger] call_requires(k.max, (a, b))
    &&& forall|n: usize| #[trigger] call_requires(k.inv_count, (n,))
    &&& forall|a: T| #[trigger] call_requires(k.inv_sqrt, (a,))
}

/// `r` is the mean of `xs`: the sum from the left, times the inverse of the
/// count.
pub open spec fn is_mean<
    T,
    A: Fn(T, T) -> T,
    B: Fn(T, T) -> T,
    M: Fn(T, T) -> T,
    X: Fn(T, T) -> T,
    N: Fn(usize) -> T,
    Q: Fn(T) -> T,
>(k: NormArith<T, A, B, M, X, N, Q>, xs: Seq<T>, r: T) -> bool {
    exists|sum: T, inv: T|
        fold::is_fold(k.plus, k.zero, xs, sum) && call_ensures(
            k.inv_count,
            (xs.len() as usize,),
            inv,
        ) && #[trigger] call_ensures(k.times, (sum, inv), r)
}

/// `sq` are the squares of `xs`.
pub open spec fn are_squares<
    T,
    A: Fn(T, T) -> T,
    B: Fn(T, T) -> T,
    M: Fn(T, T) -> T,
    X: Fn(T, T) -> T,
    N: Fn(usize) -> T,
    Q: Fn(T) -> T,
>(k: NormArith<T, A, B, M, X, N, Q>, xs: Seq<T>, sq: Seq<T>) -> bool {
    &&& sq.len() == xs.len()
    &&& forall|i: int|
        0 <= i < xs.len() ==> call_ensures(k.times, (xs[i], xs[i]), #[trigger] sq[i])
}

/// `r` is the mean of the squares of `xs`.
pub open spec fn is_mean_square<
    T,
    A: Fn(T, T) -> T,
    B: Fn(T, T) -> T,
    M: Fn(T, T) -> T,
    X: Fn(T, T) -> T,
    N: Fn(usize) -> T,
    Q: Fn(T) -> T,
>(k: NormArith<T, A, B, M, X, N, Q>, xs: Seq<T>, r: T) -> bool {
    exists|sq: Seq<T>| #[trigger] are_squares(k, xs, sq) && is_mean(k, sq, r)
}

/// `inv` is `1 / sqrt(spread + eps)`.
pub open spec fn is_inverse_root<
    T,
    A: Fn(T, T) -> T,
    B: Fn(T, T) -> T,
    M: Fn(T, T) -> T,
    X: Fn(T, T) -> T,
    N: Fn(usize) -> T,
    Q: Fn(T) -> T,
>(k: NormArith<T, A, B, M, X, N, Q>, eps: T, spread: T, inv: T) -> bool {
    exists|s: T|
        call_ensures(k.plus, (spread, eps), s) && #[trigger] call_ensures(k.inv_sqrt, (s,), inv)
}

/// `var` is the variance of a row: the mean of its squares less the square of
/// its mean, and never below zero.
pub open spec fn is_variance<
    T,
    A: Fn(T, T) -> T,
    B: Fn(T, T) -> T,
    M: Fn(T, T) -> T,
    X: Fn(T, T) -> T,
    N: Fn(usize) -> T,
    Q: Fn(T) -> T,
>(k: NormArith<T, A, B, M, X, N, Q>, xs: Seq<T>, mean: T, var: T) -> bool {
    exists|ms: T, m2: T, diff: T|
        is_mean_square(k, xs, ms) && call_ensures(k.times, (mean, mean), m2) && #[trigger]
            call_ensures(k.minus, (ms, m2), diff) && call_ensures(k.max, (diff, k.zero), var)
}

/// `y` is `(v - mean) * inv * g + b`.
pub open spec fn is_shifted<
    T,
    A: Fn(T, T) -> T,
    B: Fn(T, T) -> T,
    M: Fn(T, T) -> T,
    X: Fn(T, T) -> T,
    N: Fn(usize) -> T,
    Q: Fn(T) -> T,
>(
    k: NormArith<T, A, B, M, X, N, Q>,
    mean: T,
    inv: T,
    v: T,
    g: T,
    b: T,
    y: T,
) -> bool {
    exists|c: T, n: T, s: T|
        call_ensures(k.minus, (v, mean), c) && #[trigger] call_ensures(k.times, (c, inv), n)
            && #[trigger] call_ensures(k.times, (n, g), s) && call_ensures(k.plus, (s, b), y)
}

/// `y` is `v * inv * g`.
pub open spec fn is_scaled<
    T,
    A: Fn(T, T) -> T,
    B: Fn(T, T) -> T,
    M: Fn(T, T) -> T,
    X: Fn(T, T) -> T,
    N: Fn(usize) -> T,
    Q: Fn(T) -> T,
>(k: NormArith<T, A, B, M, X, N, Q>, inv: T, v: T, g: T, y: T) -> bool {
    exists|n: T|
        call_ensures(k.times, (v, inv), n) && #[trigger] call_ensures(k.times, (n, g), y)
}

/// `y` is row `x` centred, divided by its deviation, scaled and shifted:
/// `(x - mean) / sqrt(var + eps) * gamma + beta`.
pub open spec fn layer_row<
    T,
    A: Fn(T, T) -> T,
    B: Fn(T, T) -> T,
    M: Fn(T, T) -> T,
    X: Fn(T, T) -> T,
    N: Fn(usize) -> T,
    Q: Fn(T) -> T,
>(
    k: NormArith<T, A, B, M, X, N, Q>,
    eps: T,
    gamma: Seq<T>,
    beta: Seq<T>,
    x: Seq<T>,
    y: Seq<T>,
) -> bool {
    exists|mean: T, var: T, inv: T|
        {
            &&& is_mean(k, x, mean)
            &&& #[trigger] is_variance(k, x, mean, var)
            &&& #[trigger] is_inverse_root(k, eps, var, inv)
            &&& y.len() == x.len()
            &&& forall|i: int|
                0 <= i < x.len() ==> is_shifted(
                    k,
                    mean,
                    inv,
                    x[i],
                    gamma[i],
                    beta[i],
                    #[trigger] y[i],
                )
        }
}

/// `y` is row `x` divided by its root mean square and scaled:
/// `x / sqrt(mean(x * x) + eps) * gamma`.
pub open spec fn rms_row<
    T,
    A: Fn(T, T) -> T,
    B: Fn(T, T) -> T,
    M: Fn(T, T) -> T,
    X: Fn(T, T) -> T,
    N: Fn(usize) -> T,
    Q: Fn(T) -> T,
>(
    k: NormArith<T, A, B, M, X, N, Q>,
    eps: T,
    gamma: Seq<T>,
    x: Seq<T>,
    y: Seq<T>,
) -> bool {
    exists|ms: T, inv: T|
        {
            &&& is_mean_square(k, x, ms)
            &&& #[trigger] is_inverse_root(k, eps, ms, inv)
            &&& y.len() == x.len()
            &&& forall|i: int|
                0 <= i < x.len() ==> is_scaled(k, inv, x[i], gamma[i], #[trigger] y[i])
        }
}

/// `y` is row `x` normalised: with a shift the centred form, without one the
/// root-mean-square form.
pub open spec fn row_done<
    T,
    A: Fn(T, T) -> T,
    B: Fn(T, T) -> T,
    M: Fn(T, T) -> T,
    X: Fn(T, T) -> T,
    N: Fn(usize) -> T,
    Q: Fn(T) -> T,
>(
    k: NormArith<T, A, B, M, X, N, Q>,
    eps: T,
    gamma: Seq<T>,
    beta: Option<Seq<T>>,
    x: Seq<T>,
    y: Seq<T>,
) -> bool {
    match beta {
        Some(b) => layer_row(k, eps, gamma, b, x, y),
        None => rms_row(k, eps, gamma, x, y),
    }
}

/// Row `o` of rows of width `d`.
pub open spec fn row<T>(s: Seq<T>, d: int, o: int) -> Seq<T> {
    s.subrange(o * d, o * d + d)
}

/// Each of the `n` rows of `y`, of width `d`, is the same row of `x`
/// normalised.
pub open spec fn rows_done<
    T,
    A: Fn(T, T) -> T,
    B: Fn(T, T) -> T,
    M: Fn(T, T) -> T,
    X: Fn(T, T) -> T,
    N: Fn(usize) -> T,
    Q: Fn(T) -> T,
>(
    k: NormArith<T, A, B, M, X, N, Q>,
    eps: T,
    gamma: Seq<T>,
    beta: Option<Seq<T>>,
    x: Seq<T>,
    y: Seq<T>,
    d: int,
    n: int,
) -> bool {
    &&& y.len() == n * d
    &&& forall|o: int|
        0 <= o < n ==> row_done(k, eps, gamma, beta, row(x, d, o), #[trigger] row(y, d, o))
}

/// The optional shift, as a mathematical value.
pub open spec fn shift_view<T>(beta: Option<&[T]>) -> Option<Seq<T>> {
    match beta {
        Some(b) => Some(b@),
        None => None,
    }
}

/// The mean of a row.
fn mean<
    T: Copy,
    A: Fn(T, T) -> T,
    B: Fn(T, T) -> T,
    M: Fn(T, T) -> T,
    X: Fn(T, T) -> T,
    N: Fn(usize) -> T,
    Q: Fn(T) -> T,
>(k: &NormArith<T, A, B, M, X, N, Q>, x: &[T]) -> (r: T)
    requires
        total(*k),
    ensures
        is_mean(*k, x@, r),
{
    let sum: T = fold::fold_slice(&k.plus, k.zero, x);
    let inv: T = (k.inv_count)(x.len());
    assert(call_ensures(k.inv_count, (x@.len() as usize,), inv));
    (k.times)(sum, inv)
}

/// The mean of the squares of a row.
fn mean_square<
    T: Copy,
    A: Fn(T, T) -> T,
    B: Fn(T, T) -> T,
    M: Fn(T, T) -> T,
    X: Fn(T, T) -> T,
    N: Fn(usize) -> T,
    Q: Fn(T) -> T,
>(k: &NormArith<T, A, B, M, X, N, Q>, x: &[T]) -> (r: T)
    requires
        total(*k),
    ensures
        is_mean_square(*k, x@, r),
{
    let d: usize = x.len();
    let mut acc: T = k.zero;
    let ghost mut sq: Seq<T> = Seq::empty();
    let ghost mut st: Seq<T> = seq![acc];
    let mut i: usize = 0;
    while i < d
        invariant
            d == x@.len(),
            i <= d,
            total(*k),
            sq.len() == i,
            forall|j: int| 0 <= j < i ==> call_ensures(k.times, (x@[j], x@[j]), #[trigger] sq[j]),
            fold::fold_states(k.plus, k.zero, sq, st),
            st[i as int] == acc,
        decreases d - i,
    {
        let square: T = (k.times)(x[i], x[i]);
        let next: T = (k.plus)(acc, square);
        proof {
            let sq0 = sq;
            let st0 = st;
            sq = sq.push(square);
            st = st.push(next);
            assert forall|j: int| 0 <= j < sq.len() implies #[trigger] fold::folds_at(
                k.plus,
                sq,
                st,
                j,
            ) by {
                if j < i {
                    assert(fold::folds_at(k.plus, sq0, st0, j));
                }
            }
        }
        acc = next;
        i += 1;
    }
    let inv: T = (k.inv_count)(d);
    let r: T = (k.times)(acc, inv);
    proof {
        assert(fold::is_fold(k.plus, k.zero, sq, acc));
        assert(call_ensures(k.inv_count, (sq.len() as usize,), inv));
        assert(are_squares(*k, x@, sq));
        assert(is_mean(*k, sq, r));
    }
    r
}

fn inverse_root<
    T: Copy,
    A: Fn(T, T) -> T,
    B: Fn(T, T) -> T,
    M: Fn(T, T) -> T,
    X: Fn(T, T) -> T,
    N: Fn(usize) -> T,
    Q: Fn(T) -> T,
>(k: &NormArith<T, A, B, M, X, N, Q>, eps: T, spread: T) -> (r: T)
    requires
        total(*k),
    ensures
        is_inverse_root(*k, eps, spread, r),
{
    let s: T = (k.plus)(spread, eps);
    (k.inv_sqrt)(s)
}

/// Normalises one row with a shift.
fn shifted_row<
    T: Copy,
    A: Fn(T, T) -> T,
    B: Fn(T, T) -> T,
    M: Fn(T, T) -> T,
    X: Fn(T, T) -> T,
    N: Fn(usize) -> T,
    Q: Fn(T) -> T,
>(
    k: &NormArith<T, A, B, M, X, N, Q>,
    eps: T,
    x: &[T],
    gamma: &[T],
    beta: &[T],
) -> (y: Vec<T>)
    requires
        total(*k),
        gamma@.len() == x@.len(),
        beta@.len() == x@.len(),
    ensures
        layer_row(*k, eps, gamma@, beta@, x@, y@),
{
    let d: usize = x.len();
    let mean: T = mean(k, x);
    let ms: T = mean_square(k, x);
    let m2: T = (k.times)(mean, mean);
    let diff: T = (k.minus)(ms, m2);
    let var: T = (k.max)(diff, k.zero);
    let inv: T = inverse_root(k, eps, var);
    let mut y: Vec<T> = Vec::with_capacity(d);
    let mut i: usize = 0;
    while i < d
        invariant
            d == x@.len(),
            i <= d,
            gamma@.len() == d,
            beta@.len() == d,
            total(*k),
            y@.len() == i,
            forall|j: int|
                0 <= j < i ==> is_shifted(
                    *k,
                    mean,
                    inv,
                    x@[j],
                    gamma@[j],
                    beta@[j],
                    #[trigger] y@[j],
                ),
        decreases d - i,
    {
        let c: T = (k.minus)(x[i], mean);
        let n: T = (k.times)(c, inv);
        let s: T = (k.times)(n, gamma[i]);
        y.push((k.plus)(s, beta[i]));
        i += 1;
    }
    assert(is_variance(*k, x@, mean, var));
    y
}

/// Normalises one row without a shift.
fn scaled_row<
    T: Copy,
    A: Fn(T, T) -> T,
    B: Fn(T, T) -> T,
    M: Fn(T, T) -> T,
    X: Fn(T, T) -> T,
    N: Fn(usize) -> T,
    Q: Fn(T) -> T,
>(
    k: &NormArith<T, A, B, M, X, N, Q>,
    eps: T,
    x: &[T],
    gamma: &[T],
) -> (y: Vec<T>)
    requires
        total(*k),
        gamma@.len() == x@.len(),
    ensures
        rms_row(*k, eps, gamma@, x@, y@),
{
    let d: usize = x.len();
    let ms: T = mean_square(k, x);
    let inv: T = inverse_root(k, eps, ms);
    let mut y: Vec<T> = Vec::with_capacity(d);
    let mut i: usize = 0;
    while i < d
        invariant
            d == x@.len(),
            i <= d,
            gamma@.len() == d,
            total(*k),
            y@.len() == i,
            forall|j: int|
                0 <= j < i ==> is_scaled(*k, inv, x@[j], gamma@[j], #[trigger] y@[j]),
        decreases d - i,
    {
        let n: T = (k.times)(x[i], inv);
        y.push((k.times)(n, gamma[i]));
        i += 1;
    }
    y
}

proof fn lemma_row_of_concat<T>(a: Seq<T>, b: Seq<T>, d: int, n: int)
    requires
        d >= 0,
        n >= 0,
        a.len() == n * d,
    ensures
        forall|o: int| 0 <= o < n ==> #[trigger] row(a + b, d, o) == row(a, d, o),
        forall|o: int|
            0 <= o && (o + 1) * d <= b.len() ==> row(a + b, d, n + o) == #[trigger] row(b, d, o),
{
    assert forall|o: int| 0 <= o < n implies #[trigger] row(a + b, d, o) == row(a, d, o) by {
        assert(0 <= o * d && o * d + d <= n * d) by (nonlinear_arith)
            requires
                0 <= o < n,
                d >= 0,
        ;
        assert(row(a + b, d, o) =~= row(a, d, o));
    }
    assert forall|o: int| 0 <= o && (o + 1) * d <= b.len() implies row(a + b, d, n + o)
        == #[trigger] row(b, d, o) by {
        assert((n + o) * d == n * d + o * d && 0 <= o * d && (o + 1) * d == o * d + d)
            by (nonlinear_arith)
            requires
                0 <= o,
                d >= 0,
        ;
        assert(row(a + b, d, n + o) =~= row(b, d, o));
    }
}

/// Rows normalised apart and put one after the other are the rows of the two
/// inputs put one after the other, normalised.
proof fn lemma_rows_join<
    T,
    A: Fn(T, T) -> T,
    B: Fn(T, T) -> T,
    M: Fn(T, T) -> T,
    X: Fn(T, T) -> T,
    N: Fn(usize) -> T,
    Q: Fn(T) -> T,
>(
    k: NormArith<T, A, B, M, X, N, Q>,
    eps: T,
    gamma: Seq<T>,
    beta: Option<Seq<T>>,
    x1: Seq<T>,
    y1: Seq<T>,
    n1: int,
    x2: Seq<T>,
    y2: Seq<T>,
    n2: int,
    d: int,
)
    requires
        d >= 0,
        n1 >= 0,
        n2 >= 0,
        x1.len() == n1 * d,
        x2.len() == n2 * d,
        rows_done(k, eps, gamma, beta, x1, y1, d, n1),
        rows_done(k, eps, gamma, beta, x2, y2, d, n2),
    ensures
        rows_done(k, eps, gamma, beta, x1 + x2, y1 + y2, d, n1 + n2),
{
    let x = x1 + x2;
    let y = y1 + y2;
    lemma_row_of_concat(x1, x2, d, n1);
    lemma_row_of_concat(y1, y2, d, n1);
    assert((n1 + n2) * d == n1 * d + n2 * d) by (nonlinear_arith);
    assert forall|o: int| 0 <= o < n1 + n2 implies row_done(
        k,
        eps,
        gamma,
        beta,
        row(x, d, o),
        #[trigger] row(y, d, o),
    ) by {
        if o < n1 {
            assert(row(y, d, o) == row(y1, d, o));
            assert(row(x, d, o) == row(x1, d, o));
        } else {
            let j = o - n1;
            assert((j + 1) * d <= n2 * d) by (nonlinear_arith)
                requires
                    j + 1 <= n2,
                    d >= 0,
            ;
            assert(row(y, d, n1 + j) == row(y2, d, j));
            assert(row(x, d, n1 + j) == row(x2, d, j));
        }
    }
}

/// Normalises the rows of `x` from `first` up to `last`.
fn norm_rows<
    T: Copy,
    A: Fn(T, T) -> T,
    B: Fn(T, T) -> T,
    M: Fn(T, T) -> T,
    X: Fn(T, T) -> T,
    N: Fn(usize) -> T,
    Q: Fn(T) -> T,
>(
    k: &NormArith<T, A, B, M, X, N, Q>,
    eps: T,
    x: &[T],
    first: usize,
    last: usize,
    gamma: &[T],
    beta: Option<&[T]>,
) -> (y: Vec<T>)
    requires
        total(*k),
        beta matches Some(b) ==> b@.len() == gamma@.len(),
        first <= last,
        last * gamma@.len() <= x@.len(),
    ensures
        rows_done(
            *k,
            eps,
            gamma@,
            shift_view(beta),
            x@.subrange(first * gamma@.len(), last * gamma@.len()),
            y@,
            gamma@.len() as int,
            last - first,
        ),
{
    let d: usize = gamma.len();
    let len: usize = x.len();
    let mut y: Vec<T> = Vec::new();
    let mut o: usize = first;
    assert(0 * d == 0 && 0 <= first * d <= last * d) by (nonlinear_arith)
        requires
            0 <= first <= last,
            d >= 0,
    ;
    while o < last
        invariant
            d == gamma@.len(),
            beta matches Some(b) ==> b@.len() == d,
            total(*k),
            first <= o <= last,
            0 <= first * d <= o * d <= last * d <= len,
            len == x@.len(),
            rows_done(
                *k,
                eps,
                gamma@,
                shift_view(beta),
                x@.subrange(first * d, o * d),
                y@,
                d as int,
                o - first,
            ),
        decreases last - o,
    {
        proof {
            assert((o + 1) * d == o * d + d && (o + 1) * d <= last * d && (o - first) * d == o * d
                - first * d && 1 * d == d && 0 * d == 0) by (nonlinear_arith)
                requires
                    first <= o < last,
                    d >= 0,
            ;
        }
        let off: usize = o * d;
        let x_row = slice_subrange(x, off, off + d);
        let mut out_row = match beta {
            Some(b) => shifted_row(k, eps, x_row, gamma, b),
            None => scaled_row(k, eps, x_row, gamma),
        };
        let ghost before = y@;
        let ghost new_row = out_row@;
        y.append(&mut out_row);
        proof {
            let w = d as int;
            assert(y@ =~= before + new_row);
            assert(row(new_row, w, 0) =~= new_row);
            assert(row(x_row@, w, 0) =~= x_row@);
            assert(rows_done(*k, eps, gamma@, shift_view(beta), x_row@, new_row, w, 1));
            lemma_rows_join(
                *k,
                eps,
                gamma@,
                shift_view(beta),
                x@.subrange(first * d, o * d),
                before,
                o - first,
                x_row@,
                new_row,
                1,
                w,
            );
            assert(x@.subrange(first * d, o * d) + x_row@ =~= x@.subrange(first * d, (o + 1) * d));
        }
        o += 1;
    }
    y
}

/// Normalises all rows, task by task.
fn norm_tasks<
    T: Copy,
    A: Fn(T, T) -> T,
    B: Fn(T, T) -> T,
    M: Fn(T, T) -> T,
    X: Fn(T, T) -> T,
    N: Fn(usize) -> T,
    Q: Fn(T) -> T,
>(
    k: &NormArith<T, A, B, M, X, N, Q>,
    eps: T,
    x: &[T],
    outer: usize,
    gamma: &[T],
    beta: Option<&[T]>,
) -> (y: Vec<T>)
    requires
        total(*k),
        beta matches Some(b) ==> b@.len() == gamma@.len(),
        outer * gamma@.len() == x@.len(),
    ensures
        rows_done(
            *k,
            eps,
            gamma@,
            shift_view(beta),
            x@,
            y@,
            gamma@.len() as int,
            outer as int,
        ),
{
    let ghost d = gamma@.len() as int;
    let all = row_tasks(outer);
    let mut y: Vec<T> = Vec::with_capacity(x.len());
    let mut i: usize = 0;
    let ghost mut done: int = 0;
    proof {
        law_tasks_partition(outer);
        assert(0 * d == 0) by (nonlinear_arith);
        assert(x@.subrange(0, 0) =~= Seq::<T>::empty());
    }
    while i < all.len()
        invariant
            d == gamma@.len(),
            beta matches Some(b) ==> b@.len() == d,
            total(*k),
            outer * d == x@.len(),
            all@ == tasks(outer as int),
            i <= all@.len(),
            done == if i == 0 { 0 } else { all@[i - 1].1 as int },
            0 <= done * d <= x@.len(),
            0 <= done,
            rows_done(*k, eps, gamma@, shift_view(beta), x@.subrange(0, done * d), y@, d, done),
        decreases all.len() - i,
    {
        let (first, last) = all[i];
        proof {
            law_tasks_partition(outer);
            assert(first == done && first < last <= outer);
            assert(0 <= first * d <= last * d && last * d <= outer * d && (last - first) * d == last
                * d - first * d) by (nonlinear_arith)
                requires
                    0 <= first < last <= outer,
                    d >= 0,
            ;
        }
        let mut chunk = norm_rows(k, eps, x, first, last, gamma, beta);
        let ghost before = y@;
        let ghost part = chunk@;
        y.append(&mut chunk);
        proof {
            assert(y@ =~= before + part);
            let x1 = x@.subrange(0, done * d);
            let x2 = x@.subrange(first * d, last * d);
            lemma_rows_join(
                *k,
                eps,
                gamma@,
                shift_view(beta),
                x1,
                before,
                done,
                x2,
                part,
                last - first,
                d,
            );
            assert(x1 + x2 =~= x@.subrange(0, last * d));
            done = last as int;
        }
        i += 1;
    }
    proof {
        law_tasks_partition(outer);
        assert(done == outer);
        assert(x@.subrange(0, done * d) =~= x@);
    }
    y
}

/// The leading axes of a shape folded into one.
pub open spec fn outer_rows(shape: Seq<usize>) -> int {
    init::product(shape.drop_last())
}

fn fold_leading(shape: &[usize]) -> (r: usize)
    requires
        shape@.len() > 0,
        init::products_fit(shape@.drop_last()),
    ensures
        r == outer_rows(shape@),
{
    let lead = slice_subrange(shape, 0, shape.len() - 1);
    assert(lead@ =~= shape@.drop_last());
    assert(lead@.skip(0) =~= lead@);
    init::product_from(lead, 0)
}

/// Normalises, scales and shifts each row of a dense tensor of the given
/// shape. The result has the same shape.
pub fn layer_norm_forward_f32_fused<
    T: Copy,
    A: Fn(T, T) -> T,
    B: Fn(T, T) -> T,
    M: Fn(T, T) -> T,
    X: Fn(T, T) -> T,
    N: Fn(usize) -> T,
    Q: Fn(T) -> T,
>(
    k: &NormArith<T, A, B, M, X, N, Q>,
    shape: &[usize],
    x: &[T],
    gamma: &[T],
    beta: &[T],
    eps: T,
) -> (y: Vec<T>)
    requires
        total(*k),
        shape@.len() > 0,
        init::products_fit(shape@.drop_last()),
        gamma@.len() == shape@.last(),
        beta@.len() == shape@.last(),
        x@.len() == outer_rows(shape@) * shape@.last(),
        shape@.last() > 0 || outer_rows(shape@) < PARALLEL_OUTER_MIN,
    ensures
        rows_done(
            *k,
            eps,
            gamma@,
            Some(beta@),
            x@,
            y@,
            shape@.last() as int,
            outer_rows(shape@),
        ),
{
    let outer: usize = fold_leading(shape);
    norm_tasks(k, eps, x, outer, gamma, Some(beta))
}

/// Normalises and scales each row of a dense tensor of the given shape. The
/// result has the same shape.
pub fn rms_norm_forward_f32_fused<
    T: Copy,
    A: Fn(T, T) -> T,
    B: Fn(T, T) -> T,
    M: Fn(T, T) -> T,
    X: Fn(T, T) -> T,
    N: Fn(usize) -> T,
    Q: Fn(T) -> T,
>(
    k: &NormArith<T, A, B, M, X, N, Q>,
    shape: &[usize],
    x: &[T],
    gamma: &[T],
    eps: T,
) -> (y: Vec<T>)
    requires
        total(*k),
        shape@.len() > 0,
        init::products_fit(shape@.drop_last()),
        gamma@.len() == shape@.last(),
        x@.len() == outer_rows(shape@) * shape@.last(),
        shape@.last() > 0 || outer_rows(shape@) < PARALLEL_OUTER_MIN,
    ensures
        rows_done(*k, eps, gamma@, None, x@, y@, shape@.last() as int, outer_rows(shape@)),
{
    let outer: usize = fold_leading(shape);
    norm_tasks(k, eps, x, outer, gamma, None)
}

/// The closures give one result for each input.
pub open spec fn deterministic<
    T,
    A: Fn(T, T) -> T,
    B: Fn(T, T) -> T,
    M: Fn(T, T) -> T,
    X: Fn(T, T) -> T,
    N: Fn(usize) -> T,
    Q: Fn(T) -> T,
>(k: NormArith<T, A, B, M, X, N, Q>) -> bool {
    &&& single::single_valued2(k.plus)
    &&& single::single_valued2(k.minus)
    &&& single::single_valued2(k.times)
    &&& single::single_valued2(k.max)
    &&& single::single_valued1(k.inv_count)
    &&& single::single_valued1(k.inv_sqrt)
}

proof fn lemma_one_mean<
    T,
    A: Fn(T, T) -> T,
    B: Fn(T, T) -> T,
    M: Fn(T, T) -> T,
    X: Fn(T, T) -> T,
    N: Fn(usize) -> T,
    Q: Fn(T) -> T,
>(k: NormArith<T, A, B, M, X, N, Q>, xs: Seq<T>, r: T, q: T)
    requires
        deterministic(k),
        is_mean(k, xs, r),
        is_mean(k, xs, q),
    ensures
        r == q,
{
    let n = xs.len() as usize;
    let (s1, i1) = choose|sum: T, inv: T|
        fold::is_fold(k.plus, k.zero, xs, sum) && call_ensures(k.inv_count, (n,), inv)
            && #[trigger] call_ensures(k.times, (sum, inv), r);
    let (s2, i2) = choose|sum: T, inv: T|
        fold::is_fold(k.plus, k.zero, xs, sum) && call_ensures(k.inv_count, (n,), inv)
            && #[trigger] call_ensures(k.times, (sum, inv), q);
    fold::lemma_one_fold(k.plus, k.zero, xs, s1, s2);
    assert(i1 == i2);
}

proof fn lemma_one_mean_square<
    T,
    A: Fn(T, T) -> T,
    B: Fn(T, T) -> T,
    M: Fn(T, T) -> T,
    X: Fn(T, T) -> T,
    N: Fn(usize) -> T,
    Q: Fn(T) -> T,
>(k: NormArith<T, A, B, M, X, N, Q>, xs: Seq<T>, r: T, q: T)
    requires
        deterministic(k),
        is_mean_square(k, xs, r),
        is_mean_square(k, xs, q),
    ensures
        r == q,
{
    let a = choose|sq: Seq<T>| #[trigger] are_squares(k, xs, sq) && is_mean(k, sq, r);
    let b = choose|sq: Seq<T>| #[trigger] are_squares(k, xs, sq) && is_mean(k, sq, q);
    assert forall|i: int| 0 <= i < xs.len() implies a[i] == b[i] by {
        assert(call_ensures(k.times, (xs[i], xs[i]), a[i]));
        assert(call_ensures(k.times, (xs[i], xs[i]), b[i]));
    }
    assert(a =~= b);
    lemma_one_mean(k, a, r, q);
}

proof fn lemma_one_row<
    T,
    A: Fn(T, T) -> T,
    B: Fn(T, T) -> T,
    M: Fn(T, T) -> T,
    X: Fn(T, T) -> T,
    N: Fn(usize) -> T,
    Q: Fn(T) -> T,
>(
    k: NormArith<T, A, B, M, X, N, Q>,
    eps: T,
    gamma: Seq<T>,
    beta: Option<Seq<T>>,
    x: Seq<T>,
    y: Seq<T>,
    z: Seq<T>,
)
    requires
        deterministic(k),
        row_done(k, eps, gamma, beta, x, y),
        row_done(k, eps, gamma, beta, x, z),
    ensures
        y == z,
{
    match beta {
        Some(b) => {
            let (m1, v1, i1) = choose|mean: T, var: T, inv: T|
                {
                    &&& is_mean(k, x, mean)
                    &&& #[trigger] is_variance(k, x, mean, var)
                    &&& #[trigger] is_inverse_root(k, eps, var, inv)
                    &&& y.len() == x.len()
                    &&& forall|i: int|
                        0 <= i < x.len() ==> is_shifted(
                            k,
                            mean,
                            inv,
                            x[i],
                            gamma[i],
                            b[i],
                            #[trigger] y[i],
                        )
                };
            let (m2, v2, i2) = choose|mean: T, var: T, inv: T|
                {
                    &&& is_mean(k, x, mean)
                    &&& #[trigger] is_variance(k, x, mean, var)
                    &&& #[trigger] is_inverse_root(k, eps, var, inv)
                    &&& z.len() == x.len()
                    &&& forall|i: int|
                        0 <= i < x.len() ==> is_shifted(
                            k,
                            mean,
                            inv,
                            x[i],
                            gamma[i],
                            b[i],
                            #[trigger] z[i],
                        )
                };
            lemma_one_mean(k, x, m1, m2);
            lemma_one_variance(k, x, m1, v1, v2);
            assert(i1 == i2);
            assert forall|i: int| 0 <= i < x.len() implies y[i] == z[i] by {
                assert(is_shifted(k, m1, i1, x[i], gamma[i], b[i], y[i]));
                assert(is_shifted(k, m1, i1, x[i], gamma[i], b[i], z[i]));
            }
        },
        None => {
            let (m1, i1) = choose|ms: T, inv: T|
                {
                    &&& is_mean_square(k, x, ms)
                    &&& #[trigger] is_inverse_root(k, eps, ms, inv)
                    &&& y.len() == x.len()
                    &&& forall|i: int|
                        0 <= i < x.len() ==> is_scaled(k, inv, x[i], gamma[i], #[trigger] y[i])
                };
            let (m2, i2) = choose|ms: T, inv: T|
                {
                    &&& is_mean_square(k, x, ms)
                    &&& #[trigger] is_inverse_root(k, eps, ms, inv)
                    &&& z.len() == x.len()
                    &&& forall|i: int|
                        0 <= i < x.len() ==> is_scaled(k, inv, x[i], gamma[i], #[trigger] z[i])
                };
            lemma_one_mean_square(k, x, m1, m2);
            assert(i1 == i2);
            assert forall|i: int| 0 <= i < x.len() implies y[i] == z[i] by {
                assert(is_scaled(k, i1, x[i], gamma[i], y[i]));
                assert(is_scaled(k, i1, x[i], gamma[i], z[i]));
            }
        },
    }
    assert(y =~= z);
}

proof fn lemma_one_variance<
    T,
    A: Fn(T, T) -> T,
    B: Fn(T, T) -> T,
    M: Fn(T, T) -> T,
    X: Fn(T, T) -> T,
    N: Fn(usize) -> T,
    Q: Fn(T) -> T,
>(k: NormArith<T, A, B, M, X, N, Q>, xs: Seq<T>, mean: T, r: T, q: T)
    requires
        deterministic(k),
        is_variance(k, xs, mean, r),
        is_variance(k, xs, mean, q),
    ensures
        r == q,
{
    let (a1, b1, c1) = choose|ms: T, m2: T, diff: T|
        is_mean_square(k, xs, ms) && call_ensures(k.times, (mean, mean), m2) && #[trigger]
            call_ensures(k.minus, (ms, m2), diff) && call_ensures(k.max, (diff, k.zero), r);
    let (a2, b2, c2) = choose|ms: T, m2: T, diff: T|
        is_mean_square(k, xs, ms) && call_ensures(k.times, (mean, mean), m2) && #[trigger]
            call_ensures(k.minus, (ms, m2), diff) && call_ensures(k.max, (diff, k.zero), q);
    lemma_one_mean_square(k, xs, a1, a2);
    assert(b1 == b2);
    assert(c1 == c2);
}

/// Rows are independent of each other: with deterministic arithmetic the
/// output is determined by the inputs alone, however rows are split into tasks
/// and in whatever order tasks run.
pub proof fn law_rows_are_determined<
    T,
    A: Fn(T, T) -> T,
    B: Fn(T, T) -> T,
    M: Fn(T, T) -> T,
    X: Fn(T, T) -> T,
    N: Fn(usize) -> T,
    Q: Fn(T) -> T,
>(
    k: NormArith<T, A, B, M, X, N, Q>,
    eps: T,
    gamma: Seq<T>,
    beta: Option<Seq<T>>,
    x: Seq<T>,
    y1: Seq<T>,
    y2: Seq<T>,
    d: int,
    n: int,
)
    requires
        deterministic(k),
        d >= 0,
        n >= 0,
        x.len() == n * d,
        rows_done(k, eps, gamma, beta, x, y1, d, n),
        rows_done(k, eps, gamma, beta, x, y2, d, n),
    ensures
        y1 == y2,
{
    assert forall|i: int| 0 <= i < y1.len() implies y1[i] == y2[i] by {
        assert(d > 0) by (nonlinear_arith)
            requires
                0 < n * d,
                0 <= n,
                0 <= d,
        ;
        blocks::lemma_at_surjective(i, d, n);
        let o = i / d;
        let c = i % d;
        let a = row(y1, d, o);
        let b = row(y2, d, o);
        assert(o * d >= 0 && o * d + d <= n * d) by (nonlinear_arith)
            requires
                0 <= o < n,
                d > 0,
        ;
        assert(row_done(k, eps, gamma, beta, row(x, d, o), a));
        assert(row_done(k, eps, gamma, beta, row(x, d, o), b));
        lemma_one_row(k, eps, gamma, beta, row(x, d, o), a, b);
        assert(y1[i] == a[c] && y2[i] == b[c]);
    }
    assert(y1 =~= y2);
}

/// Normalising two inputs put one after the other gives the two normalised
/// inputs put one after the other.
pub proof fn law_norm_of_concatenation<
    T,
    A: Fn(T, T) -> T,
    B: Fn(T, T) -> T,
    M: Fn(T, T) -> T,
    X: Fn(T, T) -> T,
    N: Fn(usize) -> T,
    Q: Fn(T) -> T,
>(
    k: NormArith<T, A, B, M, X, N, Q>,
    eps: T,
    gamma: Seq<T>,
    beta: Option<Seq<T>>,
    x1: Seq<T>,
    y1: Seq<T>,
    n1: int,
    x2: Seq<T>,
    y2: Seq<T>,
    n2: int,
    y: Seq<T>,
    d: int,
)
    requires
        deterministic(k),
        d >= 0,
        n1 >= 0,
        n2 >= 0,
        x1.len() == n1 * d,
        x2.len() == n2 * d,
        rows_done(k, eps, gamma, beta, x1, y1, d, n1),
        rows_done(k, eps, gamma, beta, x2, y2, d, n2),
        rows_done(k, eps, gamma, beta, x1 + x2, y, d, n1 + n2),
    ensures
        y == y1 + y2,
{
    assert((n1 + n2) * d == n1 * d + n2 * d) by (nonlinear_arith);
    lemma_rows_join(k, eps, gamma, beta, x1, y1, n1, x2, y2, n2, d);
    law_rows_are_determined(k, eps, gamma, beta, x1 + x2, y, y1 + y2, d, n1 + n2);
}

/// The closures compute with the given numbers.
pub open spec fn computes_with<
    T,
    A: Fn(T, T) -> T,
    B: Fn(T, T) -> T,
    M: Fn(T, T) -> T,
    X: Fn(T, T) -> T,
    N: Fn(usize) -> T,
    Q: Fn(T) -> T,
>(k: NormArith<T, A, B, M, X, N, Q>, num: Num<T>) -> bool {
    &&& k.zero == num.zero
    &&& forall|a: T, b: T, r: T| #[trigger]
        call_ensures(k.plus, (a, b), r) ==> r == (num.add)(a, b)
    &&& forall|a: T, b: T, r: T| #[trigger]
        call_ensures(k.minus, (a, b), r) ==> r == (num.sub)(a, b)
    &&& forall|a: T, b: T, r: T| #[trigger]
        call_ensures(k.times, (a, b), r) ==> r == (num.mul)(a, b)
    &&& forall|a: T, b: T, r: T| #[trigger]
        call_ensures(k.max, (a, b), r) ==> r == (num.max)(a, b)
    &&& forall|n: usize, r: T| #[trigger]
        call_ensures(k.inv_count, (n,), r) ==> r == (num.div)(num.one, (num.of_nat)(n as nat))
    &&& forall|a: T, r: T| #[trigger]
        call_ensures(k.inv_sqrt, (a,), r) ==> r == (num.div)(num.one, (num.sqrt)(a))
}

/// A fold with the addition is a sum.
pub proof fn lemma_fold_is_sum<T, F: Fn(T, T) -> T>(
    f: F,
    num: Num<T>,
    xs: Seq<T>,
    r: T,
    g: spec_fn(int) -> T,
)
    requires
        forall|a: T, b: T, r: T| #[trigger] call_ensures(f, (a, b), r) ==> r == (num.add)(a, b),
        fold::is_fold(f, num.zero, xs, r),
        forall|i: int| 0 <= i < xs.len() ==> xs[i] == #[trigger] g(i),
    ensures
        r == num.sum(xs.len() as int, g),
{
    let st = choose|st: Seq<T>| #[trigger]
        fold::fold_states(f, num.zero, xs, st) && st[xs.len() as int] == r;
    lemma_states_are_sums(f, num, xs, st, g, xs.len() as int);
}

proof fn lemma_states_are_sums<T, F: Fn(T, T) -> T>(
    f: F,
    num: Num<T>,
    xs: Seq<T>,
    st: Seq<T>,
    g: spec_fn(int) -> T,
    n: int,
)
    requires
        forall|a: T, b: T, r: T| #[trigger] call_ensures(f, (a, b), r) ==> r == (num.add)(a, b),
        fold::fold_states(f, num.zero, xs, st),
        forall|i: int| 0 <= i < xs.len() ==> xs[i] == #[trigger] g(i),
        0 <= n <= xs.len(),
    ensures
        st[n] == num.sum(n, g),
    decreases n,
{
    if n > 0 {
        lemma_states_are_sums(f, num, xs, st, g, n - 1);
        assert(fold::folds_at(f, xs, st, n - 1));
        assert(xs[n - 1] == g(n - 1));
    }
}

/// The mean square of a row.
proof fn lemma_mean_square_value<
    T,
    A: Fn(T, T) -> T,
    B: Fn(T, T) -> T,
    M: Fn(T, T) -> T,
    X: Fn(T, T) -> T,
    N: Fn(usize) -> T,
    Q: Fn(T) -> T,
>(k: NormArith<T, A, B, M, X, N, Q>, num: Num<T>, x: Seq<T>, r: T, row: spec_fn(int) -> T)
    requires
        computes_with(k, num),
        x.len() <= usize::MAX,
        is_mean_square(k, x, r),
        forall|i: int| 0 <= i < x.len() ==> x[i] == #[trigger] row(i),
    ensures
        r == meaning::scaled_sum(num, x.len() as int, |l: int| num.square(row(l))),
{
    let sq = choose|sq: Seq<T>| #[trigger] are_squares(k, x, sq) && is_mean(k, sq, r);
    let g = |l: int| num.square(row(l));
    assert forall|i: int| 0 <= i < sq.len() implies sq[i] == #[trigger] g(i) by {
        assert(x[i] == row(i));
    }
    lemma_mean_value(k, num, sq, r, g);
}

/// The mean of a row.
proof fn lemma_mean_value<
    T,
    A: Fn(T, T) -> T,
    B: Fn(T, T) -> T,
    M: Fn(T, T) -> T,
    X: Fn(T, T) -> T,
    N: Fn(usize) -> T,
    Q: Fn(T) -> T,
>(k: NormArith<T, A, B, M, X, N, Q>, num: Num<T>, x: Seq<T>, r: T, row: spec_fn(int) -> T)
    requires
        computes_with(k, num),
        x.len() <= usize::MAX,
        is_mean(k, x, r),
        forall|i: int| 0 <= i < x.len() ==> x[i] == #[trigger] row(i),
    ensures
        r == meaning::scaled_sum(num, x.len() as int, row),
{
    let (sum, inv) = choose|sum: T, inv: T|
        fold::is_fold(k.plus, k.zero, x, sum) && call_ensures(
            k.inv_count,
            (x.len() as usize,),
            inv,
        ) && #[trigger] call_ensures(k.times, (sum, inv), r);
    lemma_fold_is_sum(k.plus, num, x, sum, row);
}

/// A normalised row holds `(x - mean) / sqrt(var + eps) * gamma + beta`, with
/// the variance as the mean square less the squared mean: what the fused
/// operation of the layer computes.
pub proof fn law_layer_row_computes<
    T,
    A: Fn(T, T) -> T,
    B: Fn(T, T) -> T,
    M: Fn(T, T) -> T,
    X: Fn(T, T) -> T,
    N: Fn(usize) -> T,
    Q: Fn(T) -> T,
>(
    k: NormArith<T, A, B, M, X, N, Q>,
    num: Num<T>,
    eps: T,
    gamma: Seq<T>,
    beta: Seq<T>,
    x: Seq<T>,
    y: Seq<T>,
    i: int,
)
    requires
        computes_with(k, num),
        x.len() <= usize::MAX,
        layer_row(k, eps, gamma, beta, x, y),
        0 <= i < x.len(),
    ensures
        ({
            let d = x.len() as int;
            let inv_d = (num.div)(num.one, (num.of_nat)(x.len()));
            let mean = (num.mul)(num.sum(d, |l: int| x[l]), inv_d);
            let squares = (num.mul)(num.sum(d, |l: int| (num.mul)(x[l], x[l])), inv_d);
            let var = (num.max)((num.sub)(squares, (num.mul)(mean, mean)), num.zero);
            let inv = (num.div)(num.one, (num.sqrt)((num.add)(var, eps)));
            y[i] == (num.add)(
                (num.mul)((num.mul)((num.sub)(x[i], mean), inv), gamma[i]),
                beta[i],
            )
        }),
        y[i] == meaning::fused_layer(
            num,
            x.len() as int,
            |l: int| x[l],
            i,
            eps,
            gamma[i],
            beta[i],
        ),
{
    let row = |l: int| x[l];
    let (mean, var, inv) = choose|mean: T, var: T, inv: T|
        {
            &&& is_mean(k, x, mean)
            &&& #[trigger] is_variance(k, x, mean, var)
            &&& #[trigger] is_inverse_root(k, eps, var, inv)
            &&& y.len() == x.len()
            &&& forall|i: int|
                0 <= i < x.len() ==> is_shifted(
                    k,
                    mean,
                    inv,
                    x[i],
                    gamma[i],
                    beta[i],
                    #[trigger] y[i],
                )
        };
    lemma_mean_value(k, num, x, mean, row);
    let (ms, m2, diff) = choose|ms: T, m2: T, diff: T|
        is_mean_square(k, x, ms) && call_ensures(k.times, (mean, mean), m2) && #[trigger]
            call_ensures(k.minus, (ms, m2), diff) && call_ensures(k.max, (diff, k.zero), var);
    lemma_mean_square_value(k, num, x, ms, row);
    let f = |l: int| num.square(row(l));
    let g = |l: int| (num.mul)(x[l], x[l]);
    meaning::lemma_sum_congruent(num, x.len() as int, f, g);
    assert(is_shifted(k, mean, inv, x[i], gamma[i], beta[i], y[i]));
    assert(ms == meaning::scaled_sum(num, x.len() as int, f));
}

/// A normalised row holds `x / sqrt(mean(x^2) + eps) * gamma`: what the fused
/// operation of the layer computes.
pub proof fn law_rms_row_computes<
    T,
    A: Fn(T, T) -> T,
    B: Fn(T, T) -> T,
    M: Fn(T, T) -> T,
    X: Fn(T, T) -> T,
    N: Fn(usize) -> T,
    Q: Fn(T) -> T,
>(
    k: NormArith<T, A, B, M, X, N, Q>,
    num: Num<T>,
    eps: T,
    gamma: Seq<T>,
    x: Seq<T>,
    y: Seq<T>,
    i: int,
)
    requires
        computes_with(k, num),
        x.len() <= usize::MAX,
        rms_row(k, eps, gamma, x, y),
        0 <= i < x.len(),
    ensures
        ({
            let d = x.len() as int;
            let squares = (num.mul)(
                num.sum(d, |l: int| (num.mul)(x[l], x[l])),
                (num.div)(num.one, (num.of_nat)(x.len())),
            );
            let inv = (num.div)(num.one, (num.sqrt)((num.add)(squares, eps)));
            y[i] == (num.mul)((num.mul)(x[i], inv), gamma[i])
        }),
        y[i] == meaning::fused_rms(num, x.len() as int, |l: int| x[l], i, eps, gamma[i]),
{
    let row = |l: int| x[l];
    let (ms, inv) = choose|ms: T, inv: T|
        {
            &&& is_mean_square(k, x, ms)
            &&& #[trigger] is_inverse_root(k, eps, ms, inv)
            &&& y.len() == x.len()
            &&& forall|i: int|
                0 <= i < x.len() ==> is_scaled(k, inv, x[i], gamma[i], #[trigger] y[i])
        };
    lemma_mean_square_value(k, num, x, ms, row);
    let f = |l: int| num.square(row(l));
    let g = |l: int| (num.mul)(x[l], x[l]);
    meaning::lemma_sum_congruent(num, x.len() as int, f, g);
    assert(is_scaled(k, inv, x[i], gamma[i], y[i]));
    assert(ms == meaning::scaled_sum(num, x.len() as int, f));
}

/// The fused functions normalise every row on its own: element `i` of row `o`
/// of the result is the normalised element `i` of row `o` of the input, in the
/// centred form where there is a shift and in the root-mean-square form where
/// there is none.
pub proof fn law_fused_rows_compute<
    T,
    A: Fn(T, T) -> T,
    B: Fn(T, T) -> T,
    M: Fn(T, T) -> T,
    X: Fn(T, T) -> T,
    N: Fn(usize) -> T,
    Q: Fn(T) -> T,
>(
    k: NormArith<T, A, B, M, X, N, Q>,
    num: Num<T>,
    eps: T,
    gamma: Seq<T>,
    beta: Option<Seq<T>>,
    x: Seq<T>,
    y: Seq<T>,
    d: int,
    n: int,
    o: int,
    i: int,
)
    requires
        computes_with(k, num),
        0 <= d <= usize::MAX,
        x.len() == n * d,
        rows_done(k, eps, gamma, beta, x, y, d, n),
        0 <= o < n,
        0 <= i < d,
    ensures
        0 <= o * d + i < y.len(),
        beta matches Some(b) ==> y[o * d + i] == meaning::fused_layer(
            num,
            d,
            |l: int| x[o * d + l],
            i,
            eps,
            gamma[i],
            b[i],
        ),
        beta is None ==> y[o * d + i] == meaning::fused_rms(
            num,
            d,
            |l: int| x[o * d + l],
            i,
            eps,
            gamma[i],
        ),
{
    assert(0 <= o * d && o * d + d <= n * d) by (nonlinear_arith)
        requires
            0 <= o < n,
            0 <= d,
    ;
    let xr = row(x, d, o);
    let yr = row(y, d, o);
    assert(row_done(k, eps, gamma, beta, xr, yr));
    let f = |l: int| xr[l];
    let g = |l: int| x[o * d + l];
    assert forall|l: int| 0 <= l < d implies #[trigger] f(l) == g(l) by {}
    let f2 = |l: int| num.square(f(l));
    let g2 = |l: int| num.square(g(l));
    assert forall|l: int| 0 <= l < d implies #[trigger] f2(l) == g2(l) by {
        assert(f(l) == g(l));
    }
    meaning::lemma_sum_congruent(num, d, f, g);
    meaning::lemma_sum_congruent(num, d, f2, g2);
    assert(f(i) == g(i));
    match beta {
        Some(b) => {
            law_layer_row_computes(k, num, eps, gamma, b, xr, yr, i);
        },
        None => {
            law_rms_row_computes(k, num, eps, gamma, xr, yr, i);
        },
    }
}

/// The calls normalise every row on its own, with the scale and the shift in
/// their roles.
pub proof fn law_fused_calls<
    T: Copy,
    A: Fn(T, T) -> T,
    B: Fn(T, T) -> T,
    M: Fn(T, T) -> T,
    X: Fn(T, T) -> T,
    N: Fn(usize) -> T,
    Q: Fn(T) -> T,
>(
    k: &NormArith<T, A, B, M, X, N, Q>,
    num: Num<T>,
    shape: &[usize],
    x: &[T],
    gamma: &[T],
    beta: &[T],
    eps: T,
    y: Vec<T>,
    o: int,
    i: int,
)
    requires
        computes_with(*k, num),
        shape@.len() > 0,
        x@.len() == outer_rows(shape@) * shape@.last(),
        0 <= o < outer_rows(shape@),
        0 <= i < shape@.last(),
    ensures
        ({
            let d = shape@.last() as int;
            let row = |l: int| x@[o * d + l];
            &&& call_ensures(
                layer_norm_forward_f32_fused::<T, A, B, M, X, N, Q>,
                (k, shape, x, gamma, beta, eps),
                y,
            ) ==> y@[o * d + i] == meaning::fused_layer(
                num,
                d,
                row,
                i,
                eps,
                gamma@[i],
                beta@[i],
            )
            &&& call_ensures(
                rms_norm_forward_f32_fused::<T, A, B, M, X, N, Q>,
                (k, shape, x, gamma, eps),
                y,
            ) ==> y@[o * d + i] == meaning::fused_rms(num, d, row, i, eps, gamma@[i])
        }),
{
    let d = shape@.last() as int;
    let n = outer_rows(shape@);
    if call_ensures(
        layer_norm_forward_f32_fused::<T, A, B, M, X, N, Q>,
        (k, shape, x, gamma, beta, eps),
        y,
    ) {
        law_fused_rows_compute(*k, num, eps, gamma@, Some(beta@), x@, y@, d, n, o, i);
    }
    if call_ensures(
        rms_norm_forward_f32_fused::<T, A, B, M, X, N, Q>,
        (k, shape, x, gamma, eps),
        y,
    ) {
        law_fused_rows_compute(*k, num, eps, gamma@, None, x@, y@, d, n, o, i);
    }
}

} // verus!
