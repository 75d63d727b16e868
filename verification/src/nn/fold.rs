//! Folds of a slice with a closure, from the left.
use crate::nn::single;
use vstd::prelude::*;

verus! {

/// State `i + 1` of a fold follows from state `i` and element `i`.
pub open spec fn folds_at<T, F: Fn(T, T) -> T>(f: F, xs: Seq<T>, st: Seq<T>, i: int) -> bool {
    call_ensures(f, (st[i], xs[i]), st[i + 1])
}

/// `st` are the states of folding `xs` from the left.
pub open spec fn fold_states<T, F: Fn(T, T) -> T>(f: F, init: T, xs: Seq<T>, st: Seq<T>) -> bool {
    &&& st.len() == xs.len() + 1
    &&& st[0] == init
    &&& forall|i: int| 0 <= i < xs.len() ==> #[trigger] folds_at(f, xs, st, i)
}

/// `r` is `xs` folded from the left.
pub open spec fn is_fold<T, F: Fn(T, T) -> T>(f: F, init: T, xs: Seq<T>, r: T) -> bool {
    exists|st: Seq<T>| #[trigger] fold_states(f, init, xs, st) && st[xs.len() as int] == r
}

/// Folds a slice from the left.
pub fn fold_slice<T: Copy, F: Fn(T, T) -> T>(f: &F, init: T, xs: &[T]) -> (r: T)
    requires
        forall|a: T, b: T| #[trigger] call_requires(*f, (a, b)),
    ensures
        is_fold(*f, init, xs@, r),
{
    let mut acc: T = init;
    let ghost mut st: Seq<T> = seq![init];
    let mut i: usize = 0;
    while i < xs.len()
        invariant
            i <= xs@.len(),
            forall|a: T, b: T| #[trigger] call_requires(*f, (a, b)),
            st.len() == i + 1,
            st[0] == init,
            st[i as int] == acc,
            forall|j: int| 0 <= j < i ==> #[trigger] folds_at(*f, xs@, st, j),
        decreases xs.len() - i,
    {
        let next: T = f(acc, xs[i]);
        proof {
            let before = st;
            st = st.push(next);
            assert forall|j: int| 0 <= j < i + 1 implies #[trigger] folds_at(*f, xs@, st, j) by {
                if j < i {
                    assert(folds_at(*f, xs@, before, j));
                }
            }
        }
        acc = next;
        i += 1;
    }
    assert(fold_states(*f, init, xs@, st));
    acc
}

proof fn lemma_fold_once<T, F: Fn(T, T) -> T>(
    f: F,
    init: T,
    xs: Seq<T>,
    st: Seq<T>,
    tt: Seq<T>,
    n: int,
)
    requires
        single::single_valued2(f),
        fold_states(f, init, xs, st),
        fold_states(f, init, xs, tt),
        0 <= n <= xs.len(),
    ensures
        st[n] == tt[n],
    decreases n,
{
    if n > 0 {
        lemma_fold_once(f, init, xs, st, tt, n - 1);
        assert(folds_at(f, xs, st, n - 1));
        assert(folds_at(f, xs, tt, n - 1));
    }
}

/// A fold of a function has one result.
pub proof fn lemma_one_fold<T, F: Fn(T, T) -> T>(f: F, init: T, xs: Seq<T>, r: T, q: T)
    requires
        single::single_valued2(f),
        is_fold(f, init, xs, r),
        is_fold(f, init, xs, q),
    ensures
        r == q,
{
    let st = choose|st: Seq<T>| #[trigger]
        fold_states(f, init, xs, st) && st[xs.len() as int] == r;
    let tt = choose|st: Seq<T>| #[trigger]
        fold_states(f, init, xs, st) && st[xs.len() as int] == q;
    lemma_fold_once(f, init, xs, st, tt, xs.len() as int);
}

} // verus!
