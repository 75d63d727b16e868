//! Attention of one query row to a block of keys and values.
//!
//! The arithmetic comes in as closures on scalars. The order in which they are
//! applied is fixed here: scores from dot products, their maximum, the
//! exponentials of their distance to it, the weights, and the weighted sum.
use crate::nn::fold;
use crate::nn::fused_norm;
use crate::nn::meaning;
use crate::nn::meaning::Num;
use crate::nn::single;
use vstd::prelude::*;

verus! {

/// The arithmetic of a row.
pub struct SoftmaxKernel<T, D, S, M, E, A, R, W> {
    /// Start of a sum.
    pub zero: T,
    /// Start of a maximum.
    pub lowest: T,
    /// `acc + a * b`.
    pub mul_add: D,
    /// A dot product scaled to a score, given the width of the rows:
    /// `dot / sqrt(width)`.
    pub scale: S,
    /// The larger of two.
    pub max: M,
    /// `exp(score - maximum)`.
    pub exp_of: E,
    /// `a + b`.
    pub sum: A,
    /// `1 / total`.
    pub recip: R,
    /// `exponential * inverse`.
    pub weigh: W,
}

/// The closures may be called on anything.
pub open spec fn total<
    T,
    D: Fn(T, T, T) -> T,
    S: Fn(T, usize) -> T,
    M: Fn(T, T) -> T,
    E: Fn(T, T) -> T,
    A: Fn(T, T) -> T,
    R: Fn(T) -> T,
    W: Fn(T, T) -> T,
>(k: SoftmaxKernel<T, D, S, M, E, A, R, W>) -> bool {
    &&& forall|a: T, b: T, c: T| #[trigger] call_requires(k.mul_add, (a, b, c))
    &&& forall|a: T, d: usize| #[trigger] call_requires(k.scale, (a, d))
    &&& forall|a: T, b: T| #[trigger] call_requires(k.max, (a, b))
    &&& forall|a: T, b: T| #[trigger] call_requires(k.exp_of, (a, b))
    &&& forall|a: T, b: T| #[trigger] call_requires(k.sum, (a, b))
    &&& forall|a: T| #[trigger] call_requires(k.recip, (a,))
    &&& forall|a: T, b: T| #[trigger] call_requires(k.weigh, (a, b))
}

/// State `i + 1` of a sum of products follows from state `i`.
pub open spec fn adds_at<T, D: Fn(T, T, T) -> T>(
    f: D,
    xs: Seq<T>,
    ys: Seq<T>,
    st: Seq<T>,
    i: int,
) -> bool {
    call_ensures(f, (st[i], xs[i], ys[i]), st[i + 1])
}

/// `st` are the partial sums of the products of `xs` and `ys`.
pub open spec fn dot_states<T, D: Fn(T, T, T) -> T>(
    f: D,
    init: T,
    xs: Seq<T>,
    ys: Seq<T>,
    st: Seq<T>,
) -> bool {
    &&& st.len() == xs.len() + 1
    &&& st[0] == init
    &&& forall|i: int| 0 <= i < xs.len() ==> #[trigger] adds_at(f, xs, ys, st, i)
}

/// `r` is the sum of the products of `xs` and `ys`, added from the left.
pub open spec fn is_dot<T, D: Fn(T, T, T) -> T>(
    f: D,
    init: T,
    xs: Seq<T>,
    ys: Seq<T>,
    r: T,
) -> bool {
    exists|st: Seq<T>| #[trigger] dot_states(f, init, xs, ys, st) && st[xs.len() as int] == r
}

/// Row `j` of rows of width `d`.
pub open spec fn key_row<T>(s: Seq<T>, d: int, j: int) -> Seq<T> {
    Seq::new(d as nat, |i: int| s[j * d + i])
}

/// Column `c` of `n` rows of width `d`.
pub open spec fn value_column<T>(s: Seq<T>, d: int, n: int, c: int) -> Seq<T> {
    Seq::new(n as nat, |j: int| s[j * d + c])
}

/// `r` is the scaled dot product of `x` and `y`.
pub open spec fn is_score<T, D: Fn(T, T, T) -> T, S: Fn(T, usize) -> T>(
    mul_add: D,
    scale: S,
    zero: T,
    x: Seq<T>,
    y: Seq<T>,
    r: T,
) -> bool {
    exists|dot: T|
        is_dot(mul_add, zero, x, y, dot) && #[trigger] call_ensures(
            scale,
            (dot, x.len() as usize),
            r,
        )
}

/// What is computed on the way to an output row.
pub struct RowTrace<T> {
    pub scores: Seq<T>,
    pub top: T,
    pub exps: Seq<T>,
    pub total: T,
    pub inv: T,
    pub weights: Seq<T>,
}

/// `out` is the attention of `q` to `n` keys and values, by way of `t`.
pub open spec fn row_by<
    T,
    D: Fn(T, T, T) -> T,
    S: Fn(T, usize) -> T,
    M: Fn(T, T) -> T,
    E: Fn(T, T) -> T,
    A: Fn(T, T) -> T,
    R: Fn(T) -> T,
    W: Fn(T, T) -> T,
>(
    k: SoftmaxKernel<T, D, S, M, E, A, R, W>,
    q: Seq<T>,
    keys: Seq<T>,
    values: Seq<T>,
    n: int,
    out: Seq<T>,
    t: RowTrace<T>,
) -> bool {
    let d = q.len() as int;
    &&& t.scores.len() == n
    &&& forall|j: int|
        0 <= j < n ==> is_score(
            k.mul_add,
            k.scale,
            k.zero,
            q,
            key_row(keys, d, j),
            #[trigger] t.scores[j],
        )
    &&& fold::is_fold(k.max, k.lowest, t.scores, t.top)
    &&& t.exps.len() == n
    &&& forall|j: int|
        0 <= j < n ==> call_ensures(k.exp_of, (t.scores[j], t.top), #[trigger] t.exps[j])
    &&& fold::is_fold(k.sum, k.zero, t.exps, t.total)
    &&& call_ensures(k.recip, (t.total,), t.inv)
    &&& t.weights.len() == n
    &&& forall|j: int|
        0 <= j < n ==> call_ensures(k.weigh, (t.exps[j], t.inv), #[trigger] t.weights[j])
    &&& out.len() == d
    &&& forall|c: int|
        0 <= c < d ==> is_dot(
            k.mul_add,
            k.zero,
            t.weights,
            value_column(values, d, n, c),
            #[trigger] out[c],
        )
}

/// `out` is the attention of `q` to `n` keys and values: the values weighted
/// by the softmax of their keys' scores.
pub open spec fn row_attention<
    T,
    D: Fn(T, T, T) -> T,
    S: Fn(T, usize) -> T,
    M: Fn(T, T) -> T,
    E: Fn(T, T) -> T,
    A: Fn(T, T) -> T,
    R: Fn(T) -> T,
    W: Fn(T, T) -> T,
>(
    k: SoftmaxKernel<T, D, S, M, E, A, R, W>,
    q: Seq<T>,
    keys: Seq<T>,
    values: Seq<T>,
    n: int,
    out: Seq<T>,
) -> bool {
    exists|t: RowTrace<T>| #[trigger] row_by(k, q, keys, values, n, out, t)
}

/// Scaled dot product of the query with key `j`.
fn score<T: Copy, D: Fn(T, T, T) -> T, S: Fn(T, usize) -> T>(
    mul_add: &D,
    scale: &S,
    zero: T,
    q: &[T],
    keys: &[T],
    j: usize,
) -> (r: T)
    requires
        forall|a: T, b: T, c: T| #[trigger] call_requires(*mul_add, (a, b, c)),
        forall|a: T, w: usize| #[trigger] call_requires(*scale, (a, w)),
        (j + 1) * q@.len() <= keys@.len(),
    ensures
        is_score(*mul_add, *scale, zero, q@, key_row(keys@, q@.len() as int, j as int), r),
{
    let d: usize = q.len();
    let len: usize = keys.len();
    let ghost row = key_row(keys@, d as int, j as int);
    let mut acc: T = zero;
    let ghost mut st: Seq<T> = seq![zero];
    assert((j + 1) * d == j * d + d && j * d >= 0) by (nonlinear_arith);
    let off: usize = j * d;
    let mut i: usize = 0;
    while i < d
        invariant
            i <= d,
            d == q@.len(),
            len == keys@.len(),
            off == j * d,
            off + d <= len,
            row == key_row(keys@, d as int, j as int),
            forall|a: T, b: T, c: T| #[trigger] call_requires(*mul_add, (a, b, c)),
            st.len() == i + 1,
            st[0] == zero,
            st[i as int] == acc,
            forall|p: int| 0 <= p < i ==> #[trigger] adds_at(*mul_add, q@, row, st, p),
        decreases d - i,
    {
        let next: T = mul_add(acc, q[i], keys[off + i]);
        proof {
            let before = st;
            st = st.push(next);
            assert(row[i as int] == keys@[off + i]);
            assert forall|p: int| 0 <= p < i + 1 implies #[trigger] adds_at(
                *mul_add,
                q@,
                row,
                st,
                p,
            ) by {
                if p < i {
                    assert(adds_at(*mul_add, q@, row, before, p));
                }
            }
        }
        acc = next;
        i += 1;
    }
    assert(dot_states(*mul_add, zero, q@, row, st));
    assert(is_dot(*mul_add, zero, q@, row, acc));
    let r: T = scale(acc, d);
    assert(call_ensures(*scale, (acc, q@.len() as usize), r));
    r
}

/// Sum of the values' entries at column `c`, each times its weight.
fn weighted_entry<T: Copy, D: Fn(T, T, T) -> T>(
    mul_add: &D,
    zero: T,
    weights: &Vec<T>,
    values: &[T],
    d: usize,
    c: usize,
) -> (r: T)
    requires
        forall|x: T, y: T, z: T| #[trigger] call_requires(*mul_add, (x, y, z)),
        c < d,
        weights@.len() * d == values@.len(),
    ensures
        is_dot(
            *mul_add,
            zero,
            weights@,
            value_column(values@, d as int, weights@.len() as int, c as int),
            r,
        ),
{
    let n: usize = weights.len();
    let len: usize = values.len();
    let ghost col = value_column(values@, d as int, n as int, c as int);
    let mut acc: T = zero;
    let ghost mut st: Seq<T> = seq![zero];
    let mut j: usize = 0;
    while j < n
        invariant
            j <= n,
            n == weights@.len(),
            len == values@.len(),
            n * d == len,
            c < d,
            col == value_column(values@, d as int, n as int, c as int),
            forall|x: T, y: T, z: T| #[trigger] call_requires(*mul_add, (x, y, z)),
            st.len() == j + 1,
            st[0] == zero,
            st[j as int] == acc,
            forall|p: int| 0 <= p < j ==> #[trigger] adds_at(*mul_add, weights@, col, st, p),
        decreases n - j,
    {
        assert(0 <= j * d && j * d + c < n * d) by (nonlinear_arith)
            requires
                0 <= j < n,
                0 <= c < d,
        ;
        let next: T = mul_add(acc, weights[j], values[j * d + c]);
        proof {
            let before = st;
            st = st.push(next);
            assert(col[j as int] == values@[j * d + c]);
            assert forall|p: int| 0 <= p < j + 1 implies #[trigger] adds_at(
                *mul_add,
                weights@,
                col,
                st,
                p,
            ) by {
                if p < j {
                    assert(adds_at(*mul_add, weights@, col, before, p));
                }
            }
        }
        acc = next;
        j += 1;
    }
    assert(dot_states(*mul_add, zero, weights@, col, st));
    acc
}

/// Attention of a query row to `n` keys and values of its width.
pub fn attend_row<
    T: Copy,
    D: Fn(T, T, T) -> T,
    S: Fn(T, usize) -> T,
    M: Fn(T, T) -> T,
    E: Fn(T, T) -> T,
    A: Fn(T, T) -> T,
    R: Fn(T) -> T,
    W: Fn(T, T) -> T,
>(
    k: &SoftmaxKernel<T, D, S, M, E, A, R, W>,
    q: &[T],
    keys: &[T],
    values: &[T],
    n: usize,
) -> (out: Vec<T>)
    requires
        total(*k),
        keys@.len() == n * q@.len(),
        values@.len() == n * q@.len(),
    ensures
        row_attention(*k, q@, keys@, values@, n as int, out@),
{
    let d: usize = q.len();
    let mut scores: Vec<T> = Vec::with_capacity(n);
    let mut j: usize = 0;
    while j < n
        invariant
            j <= n,
            d == q@.len(),
            keys@.len() == n * d,
            total(*k),
            scores@.len() == j,
            forall|p: int|
                0 <= p < j ==> is_score(
                    k.mul_add,
                    k.scale,
                    k.zero,
                    q@,
                    key_row(keys@, d as int, p),
                    #[trigger] scores@[p],
                ),
        decreases n - j,
    {
        assert((j + 1) * d <= n * d) by (nonlinear_arith)
            requires
                j + 1 <= n,
                d >= 0,
        ;
        scores.push(score(&k.mul_add, &k.scale, k.zero, q, keys, j));
        j += 1;
    }
    let top: T = fold::fold_slice(&k.max, k.lowest, scores.as_slice());
    let mut exps: Vec<T> = Vec::with_capacity(n);
    j = 0;
    while j < n
        invariant
            j <= n,
            scores@.len() == n,
            total(*k),
            exps@.len() == j,
            forall|p: int|
                0 <= p < j ==> call_ensures(k.exp_of, (scores@[p], top), #[trigger] exps@[p]),
        decreases n - j,
    {
        exps.push((k.exp_of)(scores[j], top));
        j += 1;
    }
    let sum: T = fold::fold_slice(&k.sum, k.zero, exps.as_slice());
    let inv: T = (k.recip)(sum);
    let mut weights: Vec<T> = Vec::with_capacity(n);
    j = 0;
    while j < n
        invariant
            j <= n,
            exps@.len() == n,
            total(*k),
            weights@.len() == j,
            forall|p: int|
                0 <= p < j ==> call_ensures(k.weigh, (exps@[p], inv), #[trigger] weights@[p]),
        decreases n - j,
    {
        weights.push((k.weigh)(exps[j], inv));
        j += 1;
    }
    let mut out: Vec<T> = Vec::with_capacity(d);
    let mut c: usize = 0;
    while c < d
        invariant
            c <= d,
            weights@.len() == n,
            values@.len() == n * d,
            total(*k),
            out@.len() == c,
            forall|p: int|
                0 <= p < c ==> is_dot(
                    k.mul_add,
                    k.zero,
                    weights@,
                    value_column(values@, d as int, n as int, p),
                    #[trigger] out@[p],
                ),
        decreases d - c,
    {
        out.push(weighted_entry(&k.mul_add, k.zero, &weights, values, d, c));
        c += 1;
    }
    proof {
        let t = RowTrace {
            scores: scores@,
            top,
            exps: exps@,
            total: sum,
            inv,
            weights: weights@,
        };
        assert(row_by(*k, q@, keys@, values@, n as int, out@, t));
    }
    out
}

/// Every closure gives one result for each input.
pub open spec fn deterministic<
    T,
    D: Fn(T, T, T) -> T,
    S: Fn(T, usize) -> T,
    M: Fn(T, T) -> T,
    E: Fn(T, T) -> T,
    A: Fn(T, T) -> T,
    R: Fn(T) -> T,
    W: Fn(T, T) -> T,
>(k: SoftmaxKernel<T, D, S, M, E, A, R, W>) -> bool {
    &&& single::single_valued3(k.mul_add)
    &&& single::single_valued2(k.scale)
    &&& single::single_valued2(k.max)
    &&& single::single_valued2(k.exp_of)
    &&& single::single_valued2(k.sum)
    &&& single::single_valued1(k.recip)
    &&& single::single_valued2(k.weigh)
}

proof fn lemma_dot_once<T, D: Fn(T, T, T) -> T>(
    f: D,
    init: T,
    xs: Seq<T>,
    ys: Seq<T>,
    st: Seq<T>,
    tt: Seq<T>,
    n: int,
)
    requires
        single::single_valued3(f),
        dot_states(f, init, xs, ys, st),
        dot_states(f, init, xs, ys, tt),
        0 <= n <= xs.len(),
    ensures
        st[n] == tt[n],
    decreases n,
{
    if n > 0 {
        lemma_dot_once(f, init, xs, ys, st, tt, n - 1);
        assert(adds_at(f, xs, ys, st, n - 1));
        assert(adds_at(f, xs, ys, tt, n - 1));
    }
}

proof fn lemma_one_dot<T, D: Fn(T, T, T) -> T>(
    f: D,
    init: T,
    xs: Seq<T>,
    ys: Seq<T>,
    r: T,
    q: T,
)
    requires
        single::single_valued3(f),
        is_dot(f, init, xs, ys, r),
        is_dot(f, init, xs, ys, q),
    ensures
        r == q,
{
    let st = choose|st: Seq<T>| #[trigger]
        dot_states(f, init, xs, ys, st) && st[xs.len() as int] == r;
    let tt = choose|st: Seq<T>| #[trigger]
        dot_states(f, init, xs, ys, st) && st[xs.len() as int] == q;
    lemma_dot_once(f, init, xs, ys, st, tt, xs.len() as int);
}

proof fn lemma_one_score<T, D: Fn(T, T, T) -> T, S: Fn(T, usize) -> T>(
    mul_add: D,
    scale: S,
    zero: T,
    x: Seq<T>,
    y: Seq<T>,
    r: T,
    q: T,
)
    requires
        single::single_valued3(mul_add),
        single::single_valued2(scale),
        is_score(mul_add, scale, zero, x, y, r),
        is_score(mul_add, scale, zero, x, y, q),
    ensures
        r == q,
{
    let w = x.len() as usize;
    let a = choose|dot: T|
        is_dot(mul_add, zero, x, y, dot) && #[trigger] call_ensures(scale, (dot, w), r);
    let b = choose|dot: T|
        is_dot(mul_add, zero, x, y, dot) && #[trigger] call_ensures(scale, (dot, w), q);
    lemma_one_dot(mul_add, zero, x, y, a, b);
}

/// The output row is fixed by the query, the keys and the values, as long as
/// the arithmetic has no other inputs.
pub proof fn law_row_is_determined<
    T,
    D: Fn(T, T, T) -> T,
    S: Fn(T, usize) -> T,
    M: Fn(T, T) -> T,
    E: Fn(T, T) -> T,
    A: Fn(T, T) -> T,
    R: Fn(T) -> T,
    W: Fn(T, T) -> T,
>(
    k: SoftmaxKernel<T, D, S, M, E, A, R, W>,
    q: Seq<T>,
    keys: Seq<T>,
    values: Seq<T>,
    n: int,
    out1: Seq<T>,
    out2: Seq<T>,
)
    requires
        deterministic(k),
        row_attention(k, q, keys, values, n, out1),
        row_attention(k, q, keys, values, n, out2),
    ensures
        out1 == out2,
{
    let d = q.len() as int;
    let a = choose|t: RowTrace<T>| #[trigger] row_by(k, q, keys, values, n, out1, t);
    let b = choose|t: RowTrace<T>| #[trigger] row_by(k, q, keys, values, n, out2, t);
    assert forall|j: int| 0 <= j < n implies a.scores[j] == b.scores[j] by {
        lemma_one_score(
            k.mul_add,
            k.scale,
            k.zero,
            q,
            key_row(keys, d, j),
            a.scores[j],
            b.scores[j],
        );
    }
    assert(a.scores =~= b.scores);
    fold::lemma_one_fold(k.max, k.lowest, a.scores, a.top, b.top);
    assert forall|j: int| 0 <= j < n implies a.exps[j] == b.exps[j] by {
        assert(call_ensures(k.exp_of, (a.scores[j], a.top), a.exps[j]));
        assert(call_ensures(k.exp_of, (a.scores[j], a.top), b.exps[j]));
    }
    assert(a.exps =~= b.exps);
    fold::lemma_one_fold(k.sum, k.zero, a.exps, a.total, b.total);
    assert(a.inv == b.inv);
    assert forall|j: int| 0 <= j < n implies a.weights[j] == b.weights[j] by {
        assert(call_ensures(k.weigh, (a.exps[j], a.inv), a.weights[j]));
        assert(call_ensures(k.weigh, (a.exps[j], a.inv), b.weights[j]));
    }
    assert(a.weights =~= b.weights);
    assert forall|c: int| 0 <= c < d implies out1[c] == out2[c] by {
        lemma_one_dot(
            k.mul_add,
            k.zero,
            a.weights,
            value_column(values, d, n, c),
            out1[c],
            out2[c],
        );
    }
    assert(out1 =~= out2);
}

/// The output row has the width of the query.
pub proof fn law_row_width<
    T,
    D: Fn(T, T, T) -> T,
    S: Fn(T, usize) -> T,
    M: Fn(T, T) -> T,
    E: Fn(T, T) -> T,
    A: Fn(T, T) -> T,
    R: Fn(T) -> T,
    W: Fn(T, T) -> T,
>(
    k: SoftmaxKernel<T, D, S, M, E, A, R, W>,
    q: Seq<T>,
    keys: Seq<T>,
    values: Seq<T>,
    n: int,
    out: Seq<T>,
)
    requires
        row_attention(k, q, keys, values, n, out),
    ensures
        out.len() == q.len(),
{
}

/// The largest of `f(0), .., f(n - 1)` and `lowest`.
pub open spec fn peak<T>(num: Num<T>, lowest: T, n: int, f: spec_fn(int) -> T) -> T
    decreases n,
{
    if n <= 0 {
        lowest
    } else {
        (num.max)(peak(num, lowest, n - 1, f), f(n - 1))
    }
}

/// The score of key `j`: `q . k_j / sqrt(d)`.
pub open spec fn score_of<T>(
    num: Num<T>,
    d: nat,
    q: spec_fn(int) -> T,
    k: spec_fn(int, int) -> T,
    j: int,
) -> T {
    (num.div)(
        num.sum(d as int, |l: int| (num.mul)(q(l), k(j, l))),
        (num.sqrt)((num.of_nat)(d)),
    )
}

/// One entry of the attention of a query of width `d` to `n` keys: the sum of
/// the values weighted by `exp(score_j - top) / sum exp(score - top)`, where
/// `top` is the largest score.
pub open spec fn mixed<T>(
    num: Num<T>,
    lowest: T,
    d: nat,
    n: int,
    q: spec_fn(int) -> T,
    k: spec_fn(int, int) -> T,
    v: spec_fn(int) -> T,
) -> T {
    let score = |j: int| score_of(num, d, q, k, j);
    let top = peak(num, lowest, n, score);
    let e = |j: int| (num.exp)((num.sub)(score(j), top));
    let inv = (num.div)(num.one, num.sum(n, e));
    num.sum(n, |j: int| (num.mul)((num.mul)(e(j), inv), v(j)))
}

proof fn lemma_peak_congruent<T>(
    num: Num<T>,
    lowest: T,
    n: int,
    f: spec_fn(int) -> T,
    g: spec_fn(int) -> T,
)
    requires
        forall|l: int| 0 <= l < n ==> #[trigger] f(l) == g(l),
    ensures
        peak(num, lowest, n, f) == peak(num, lowest, n, g),
    decreases n,
{
    if n > 0 {
        lemma_peak_congruent(num, lowest, n - 1, f, g);
        assert(f(n - 1) == g(n - 1));
    }
}

/// Attention depends on the entries alone.
pub proof fn lemma_mixed_congruent<T>(
    num: Num<T>,
    lowest: T,
    d: nat,
    n: int,
    q: spec_fn(int) -> T,
    k: spec_fn(int, int) -> T,
    v: spec_fn(int) -> T,
    q2: spec_fn(int) -> T,
    k2: spec_fn(int, int) -> T,
    v2: spec_fn(int) -> T,
)
    requires
        forall|l: int| 0 <= l < d ==> #[trigger] q(l) == q2(l),
        forall|j: int, l: int| 0 <= j < n && 0 <= l < d ==> #[trigger] k(j, l) == k2(j, l),
        forall|j: int| 0 <= j < n ==> #[trigger] v(j) == v2(j),
    ensures
        mixed(num, lowest, d, n, q, k, v) == mixed(num, lowest, d, n, q2, k2, v2),
{
    let f = |j: int| score_of(num, d, q, k, j);
    let g = |j: int| score_of(num, d, q2, k2, j);
    assert forall|j: int| 0 <= j < n implies #[trigger] f(j) == g(j) by {
        let a = |l: int| (num.mul)(q(l), k(j, l));
        let b = |l: int| (num.mul)(q2(l), k2(j, l));
        assert forall|l: int| 0 <= l < d implies #[trigger] a(l) == b(l) by {
            assert(q(l) == q2(l) && k(j, l) == k2(j, l));
        }
        meaning::lemma_sum_congruent(num, d as int, a, b);
    }
    lemma_peak_congruent(num, lowest, n, f, g);
    let top = peak(num, lowest, n, f);
    let e = |j: int| (num.exp)((num.sub)(f(j), top));
    let e2 = |j: int| (num.exp)((num.sub)(g(j), top));
    assert forall|j: int| 0 <= j < n implies #[trigger] e(j) == e2(j) by {
        assert(f(j) == g(j));
    }
    meaning::lemma_sum_congruent(num, n, e, e2);
    let inv = (num.div)(num.one, num.sum(n, e));
    let a = |j: int| (num.mul)((num.mul)(e(j), inv), v(j));
    let b = |j: int| (num.mul)((num.mul)(e2(j), inv), v2(j));
    assert forall|j: int| 0 <= j < n implies #[trigger] a(j) == b(j) by {
        assert(e(j) == e2(j) && v(j) == v2(j));
    }
    meaning::lemma_sum_congruent(num, n, a, b);
}

/// The closures compute with the given numbers.
pub open spec fn computes_with<
    T,
    D: Fn(T, T, T) -> T,
    S: Fn(T, usize) -> T,
    M: Fn(T, T) -> T,
    E: Fn(T, T) -> T,
    A: Fn(T, T) -> T,
    R: Fn(T) -> T,
    W: Fn(T, T) -> T,
>(k: SoftmaxKernel<T, D, S, M, E, A, R, W>, num: Num<T>) -> bool {
    &&& k.zero == num.zero
    &&& forall|a: T, b: T, c: T, r: T| #[trigger]
        call_ensures(k.mul_add, (a, b, c), r) ==> r == (num.add)(a, (num.mul)(b, c))
    &&& forall|a: T, d: usize, r: T| #[trigger]
        call_ensures(k.scale, (a, d), r) ==> r == (num.div)(a, (num.sqrt)((num.of_nat)(d as nat)))
    &&& forall|a: T, b: T, r: T| #[trigger]
        call_ensures(k.max, (a, b), r) ==> r == (num.max)(a, b)
    &&& forall|a: T, b: T, r: T| #[trigger]
        call_ensures(k.exp_of, (a, b), r) ==> r == (num.exp)((num.sub)(a, b))
    &&& forall|a: T, b: T, r: T| #[trigger]
        call_ensures(k.sum, (a, b), r) ==> r == (num.add)(a, b)
    &&& forall|a: T, r: T| #[trigger]
        call_ensures(k.recip, (a,), r) ==> r == (num.div)(num.one, a)
    &&& forall|a: T, b: T, r: T| #[trigger]
        call_ensures(k.weigh, (a, b), r) ==> r == (num.mul)(a, b)
}

proof fn lemma_dot_states_value<T, D: Fn(T, T, T) -> T>(
    f: D,
    num: Num<T>,
    xs: Seq<T>,
    ys: Seq<T>,
    st: Seq<T>,
    n: int,
    g: spec_fn(int) -> T,
)
    requires
        forall|a: T, b: T, c: T, r: T| #[trigger]
            call_ensures(f, (a, b, c), r) ==> r == (num.add)(a, (num.mul)(b, c)),
        dot_states(f, num.zero, xs, ys, st),
        0 <= n <= xs.len(),
        forall|i: int| 0 <= i < xs.len() ==> #[trigger] g(i) == (num.mul)(xs[i], ys[i]),
    ensures
        st[n] == num.sum(n, g),
    decreases n,
{
    if n > 0 {
        lemma_dot_states_value(f, num, xs, ys, st, n - 1, g);
        assert(adds_at(f, xs, ys, st, n - 1));
        assert(g(n - 1) == (num.mul)(xs[n - 1], ys[n - 1]));
    }
}

proof fn lemma_dot_value<T, D: Fn(T, T, T) -> T>(
    f: D,
    num: Num<T>,
    xs: Seq<T>,
    ys: Seq<T>,
    r: T,
    g: spec_fn(int) -> T,
)
    requires
        forall|a: T, b: T, c: T, r: T| #[trigger]
            call_ensures(f, (a, b, c), r) ==> r == (num.add)(a, (num.mul)(b, c)),
        is_dot(f, num.zero, xs, ys, r),
        forall|i: int| 0 <= i < xs.len() ==> #[trigger] g(i) == (num.mul)(xs[i], ys[i]),
    ensures
        r == num.sum(xs.len() as int, g),
{
    let st = choose|st: Seq<T>| #[trigger]
        dot_states(f, num.zero, xs, ys, st) && st[xs.len() as int] == r;
    lemma_dot_states_value(f, num, xs, ys, st, xs.len() as int, g);
}

proof fn lemma_peak_states<T, F: Fn(T, T) -> T>(
    f: F,
    num: Num<T>,
    lowest: T,
    xs: Seq<T>,
    st: Seq<T>,
    n: int,
    g: spec_fn(int) -> T,
)
    requires
        forall|a: T, b: T, r: T| #[trigger] call_ensures(f, (a, b), r) ==> r == (num.max)(a, b),
        fold::fold_states(f, lowest, xs, st),
        0 <= n <= xs.len(),
        forall|i: int| 0 <= i < xs.len() ==> xs[i] == #[trigger] g(i),
    ensures
        st[n] == peak(num, lowest, n, g),
    decreases n,
{
    if n > 0 {
        lemma_peak_states(f, num, lowest, xs, st, n - 1, g);
        assert(fold::folds_at(f, xs, st, n - 1));
        assert(xs[n - 1] == g(n - 1));
    }
}

/// An attended row holds, at column `c`, the values' column `c` weighted by
/// the softmax of the scaled dot products of the query with the keys.
pub proof fn law_row_attention_computes<
    T,
    D: Fn(T, T, T) -> T,
    S: Fn(T, usize) -> T,
    M: Fn(T, T) -> T,
    E: Fn(T, T) -> T,
    A: Fn(T, T) -> T,
    R: Fn(T) -> T,
    W: Fn(T, T) -> T,
>(
    k: SoftmaxKernel<T, D, S, M, E, A, R, W>,
    num: Num<T>,
    q: Seq<T>,
    keys: Seq<T>,
    values: Seq<T>,
    n: int,
    out: Seq<T>,
    c: int,
)
    requires
        computes_with(k, num),
        n >= 0,
        q.len() <= usize::MAX,
        row_attention(k, q, keys, values, n, out),
        0 <= c < q.len(),
    ensures
        out[c] == mixed(
            num,
            k.lowest,
            q.len(),
            n,
            |l: int| q[l],
            |j: int, l: int| keys[j * q.len() + l],
            |j: int| values[j * q.len() + c],
        ),
{
    let d = q.len() as int;
    let qf = |l: int| q[l];
    let kf = |j: int, l: int| keys[j * q.len() + l];
    let vf = |j: int| values[j * q.len() + c];
    let t = choose|t: RowTrace<T>| #[trigger] row_by(k, q, keys, values, n, out, t);
    let score = |j: int| score_of(num, q.len(), qf, kf, j);
    assert forall|j: int| 0 <= j < n implies t.scores[j] == #[trigger] score(j) by {
        let y = key_row(keys, d, j);
        assert(is_score(k.mul_add, k.scale, k.zero, q, y, t.scores[j]));
        let dot = choose|dot: T|
            is_dot(k.mul_add, k.zero, q, y, dot) && #[trigger] call_ensures(
                k.scale,
                (dot, q.len() as usize),
                t.scores[j],
            );
        let g = |l: int| (num.mul)(qf(l), kf(j, l));
        assert forall|l: int| 0 <= l < d implies #[trigger] g(l) == (num.mul)(q[l], y[l]) by {
            assert(qf(l) == q[l] && kf(j, l) == y[l]);
        }
        lemma_dot_value(k.mul_add, num, q, y, dot, g);
    }
    let st = choose|st: Seq<T>| #[trigger]
        fold::fold_states(k.max, k.lowest, t.scores, st) && st[t.scores.len() as int] == t.top;
    lemma_peak_states(k.max, num, k.lowest, t.scores, st, n, score);
    let e = |j: int| (num.exp)((num.sub)(score(j), t.top));
    assert forall|j: int| 0 <= j < n implies t.exps[j] == #[trigger] e(j) by {
        assert(t.scores[j] == score(j));
        assert(call_ensures(k.exp_of, (t.scores[j], t.top), t.exps[j]));
    }
    fused_norm::lemma_fold_is_sum(k.sum, num, t.exps, t.total, e);
    let inv = (num.div)(num.one, num.sum(n, e));
    let col = value_column(values, d, n, c);
    let g = |j: int| (num.mul)((num.mul)(e(j), inv), vf(j));
    assert forall|j: int| 0 <= j < n implies #[trigger] g(j) == (num.mul)(t.weights[j], col[j]) by {
        assert(t.exps[j] == e(j));
        assert(call_ensures(k.weigh, (t.exps[j], t.inv), t.weights[j]));
        assert(vf(j) == col[j]);
    }
    assert(is_dot(k.mul_add, k.zero, t.weights, col, out[c]));
    lemma_dot_value(k.mul_add, num, t.weights, col, out[c], g);
}

/// The call attends to keys and values in their roles: column `c` of its result
/// mixes column `c` of the values by the softmax of the scaled products of the
/// query with the keys.
pub proof fn law_attend_call<
    T: Copy,
    D: Fn(T, T, T) -> T,
    S: Fn(T, usize) -> T,
    M: Fn(T, T) -> T,
    E: Fn(T, T) -> T,
    A: Fn(T, T) -> T,
    R: Fn(T) -> T,
    W: Fn(T, T) -> T,
>(
    k: &SoftmaxKernel<T, D, S, M, E, A, R, W>,
    num: Num<T>,
    q: &[T],
    keys: &[T],
    values: &[T],
    n: usize,
    out: Vec<T>,
    c: int,
)
    requires
        computes_with(*k, num),
        call_ensures(attend_row::<T, D, S, M, E, A, R, W>, (k, q, keys, values, n), out),
        0 <= c < q@.len() <= usize::MAX,
    ensures
        out@[c] == mixed(
            num,
            k.lowest,
            q@.len(),
            n as int,
            |l: int| q@[l],
            |j: int, l: int| keys@[j * q@.len() + l],
            |j: int| values@[j * q@.len() + c],
        ),
{
    law_row_attention_computes(*k, num, q@, keys@, values@, n as int, out@, c);
}

} // verus!
