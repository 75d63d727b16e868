//! Additive attention masks: zero where a position is kept, a large negative
//! number where it is masked.
//!
//! The number is finite, so that a row that is masked everywhere still has a
//! softmax.
use crate::blocks;
use crate::nn::param::copy_shape;
use vstd::prelude::*;

verus! {

/// What is added to the score of a masked position.
pub const MASK_NEG: i32 = -10_000;

/// The bits of `0.5`.
pub const HALF_BITS: u32 = 0x3f00_0000;

/// The bits of positive infinity.
pub const INFINITY_BITS: u32 = 0x7f80_0000;

/// A mask with its elements in row-major order.
#[derive(Debug)]
pub struct AdditiveMask {
    pub shape: Vec<usize>,
    pub values: Vec<i32>,
}

/// The element of a mask.
pub open spec fn bias(keep: bool) -> i32 {
    if keep {
        0
    } else {
        MASK_NEG
    }
}

/// Position `i` may attend to itself and to what came before it.
pub open spec fn causal_keeps(i: int, j: int) -> bool {
    j <= i
}

/// Of those, only the last `window` positions.
pub open spec fn window_keeps(i: int, j: int, window: int) -> bool {
    j <= i && i - j < window
}

/// The mask that keeps `[i, j]` where `keep(i, j)`.
pub open spec fn square(n: nat, keep: spec_fn(int, int) -> bool) -> Seq<i32> {
    Seq::new(n * n, |p: int| bias(keep(p / (n as int), p % (n as int))))
}

/// The elements of the causal mask.
pub open spec fn causal(n: nat) -> Seq<i32> {
    square(n, |i: int, j: int| causal_keeps(i, j))
}

/// The elements of the sliding-window mask.
pub open spec fn sliding(n: nat, window: int) -> Seq<i32> {
    square(n, |i: int, j: int| window_keeps(i, j, window))
}

fn square_shape(n: usize) -> (r: Vec<usize>)
    ensures
        r@ == seq![n, n],
{
    let mut s: Vec<usize> = Vec::new();
    s.push(n);
    s.push(n);
    assert(s@ =~= seq![n, n]);
    s
}

proof fn lemma_row_major(i: int, j: int, n: int)
    requires
        0 <= i < n,
        0 <= j < n,
    ensures
        0 <= i * n + j < n * n,
        (i * n + j) / n == i,
        (i * n + j) % n == j,
{
    blocks::lemma_at_bounds(i, n, j, n);
    assert((i * n + j) / n == i && (i * n + j) % n == j) by (nonlinear_arith)
        requires
            0 <= j < n,
            0 <= i,
    ;
}

/// The `[seq_len, seq_len]` mask under which each position attends to itself
/// and to the positions before it.
pub fn causal_mask(seq_len: usize) -> (r: AdditiveMask)
    requires
        seq_len * seq_len <= usize::MAX,
    ensures
        r.shape@ == seq![seq_len, seq_len],
        r.values@ == causal(seq_len as nat),
{
    let n: usize = seq_len;
    let len: usize = n * n;
    let mut values: Vec<i32> = Vec::with_capacity(len);
    let mut i: usize = 0;
    assert(0 * n == 0) by (nonlinear_arith);
    while i < n
        invariant
            i <= n,
            n == seq_len,
            n * n == len,
            values@ == causal(n as nat).take(i * n),
        decreases n - i,
    {
        let mut j: usize = 0;
        while j < n
            invariant
                i < n,
                j <= n,
                n * n == len,
                values@ == causal(n as nat).take(i * n + j),
            decreases n - j,
        {
            values.push(
                if j > i {
                    MASK_NEG
                } else {
                    0
                },
            );
            proof {
                lemma_row_major(i as int, j as int, n as int);
                let c = causal(n as nat);
                assert(c[i * n + j] == bias(causal_keeps(i as int, j as int)));
                assert(values@ =~= c.take(i * n + j + 1));
            }
            j += 1;
        }
        assert((i + 1) * n == i * n + n) by (nonlinear_arith);
        i += 1;
    }
    assert(causal(n as nat).take(n * n) =~= causal(n as nat));
    AdditiveMask { shape: square_shape(n), values }
}

/// The `[seq_len, seq_len]` mask under which each position attends to itself
/// and to the `window - 1` positions before it.
pub fn sliding_window_mask(seq_len: usize, window: usize) -> (r: AdditiveMask)
    requires
        window >= 1,
        seq_len * seq_len <= usize::MAX,
    ensures
        r.shape@ == seq![seq_len, seq_len],
        r.values@ == sliding(seq_len as nat, window as int),
{
    let n: usize = seq_len;
    let len: usize = n * n;
    let mut values: Vec<i32> = Vec::with_capacity(len);
    let mut i: usize = 0;
    assert(0 * n == 0) by (nonlinear_arith);
    while i < n
        invariant
            i <= n,
            n == seq_len,
            n * n == len,
            values@ == sliding(n as nat, window as int).take(i * n),
        decreases n - i,
    {
        let mut j: usize = 0;
        while j < n
            invariant
                i < n,
                j <= n,
                n * n == len,
                values@ == sliding(n as nat, window as int).take(i * n + j),
            decreases n - j,
        {
            let keep: bool = j <= i && i - j < window;
            values.push(
                if keep {
                    0
                } else {
                    MASK_NEG
                },
            );
            proof {
                lemma_row_major(i as int, j as int, n as int);
                let c = sliding(n as nat, window as int);
                assert(c[i * n + j] == bias(window_keeps(i as int, j as int, window as int)));
                assert(values@ =~= c.take(i * n + j + 1));
            }
            j += 1;
        }
        assert((i + 1) * n == i * n + n) by (nonlinear_arith);
        i += 1;
    }
    assert(sliding(n as nat, window as int).take(n * n) =~= sliding(n as nat, window as int));
    AdditiveMask { shape: square_shape(n), values }
}

/// The single-precision number with these bits is at least one half.
pub open spec fn at_least_half(bits: u32) -> bool {
    HALF_BITS <= bits <= INFINITY_BITS
}

/// The additive form of a mask that holds one where a position is kept and
/// zero where it is masked. The elements come in by their bits.
pub fn bool_to_additive(shape: &[usize], mask: &[u32]) -> (r: AdditiveMask)
    ensures
        r.shape@ == shape@,
        r.values@ == Seq::new(mask@.len(), |i: int| bias(at_least_half(mask@[i]))),
{
    let mut values: Vec<i32> = Vec::with_capacity(mask.len());
    let mut i: usize = 0;
    while i < mask.len()
        invariant
            i <= mask@.len(),
            values@ == Seq::new(i as nat, |k: int| bias(at_least_half(mask@[k]))),
        decreases mask.len() - i,
    {
        let v: u32 = mask[i];
        values.push(
            if HALF_BITS <= v && v <= INFINITY_BITS {
                0
            } else {
                MASK_NEG
            },
        );
        assert(values@ =~= Seq::new((i + 1) as nat, |k: int| bias(at_least_half(mask@[k]))));
        i += 1;
    }
    AdditiveMask { shape: copy_shape(shape), values }
}

/// A window of at least the sequence length is the causal mask.
pub proof fn law_full_window_is_causal(n: nat, window: int)
    requires
        window >= n,
    ensures
        sliding(n, window) == causal(n),
{
    assert forall|p: int| 0 <= p < n * n implies sliding(n, window)[p] == causal(n)[p] by {
        blocks::lemma_at_surjective(p, n as int, n as int);
    }
    assert(sliding(n, window) =~= causal(n));
}

/// A window of one keeps the diagonal alone.
pub proof fn law_unit_window_is_diagonal(n: nat)
    ensures
        sliding(n, 1) == square(n, |i: int, j: int| i == j),
{
    assert(sliding(n, 1) =~= square(n, |i: int, j: int| i == j));
}

/// Row `i` of a sliding-window mask keeps exactly the columns from
/// `i - window + 1` to `i`, so that every row keeps its own position.
pub proof fn law_kept_columns(n: nat, window: int, i: int, j: int)
    requires
        window >= 1,
        0 <= i < n,
        0 <= j < n,
    ensures
        (sliding(n, window)[i * n + j] == 0) <==> i - window + 1 <= j <= i,
        sliding(n, window)[i * n + i] == 0,
{
    lemma_row_major(i, j, n as int);
    lemma_row_major(i, i, n as int);
}

/// A wider window keeps whatever a narrower one keeps, and the causal mask
/// keeps whatever any window keeps.
pub proof fn law_windows_nest(n: nat, narrow: int, wide: int, p: int)
    requires
        narrow <= wide,
        0 <= p < n * n,
    ensures
        sliding(n, narrow)[p] == 0 ==> sliding(n, wide)[p] == 0,
        sliding(n, wide)[p] == 0 ==> causal(n)[p] == 0,
{
}

/// No position looks ahead: above the diagonal everything is masked.
pub proof fn law_causal_masks_the_future(n: nat, i: int, j: int)
    requires
        0 <= i < j < n,
    ensures
        causal(n)[i * n + j] == MASK_NEG,
{
    lemma_row_major(i, j, n as int);
}

/// A mask that is added to scores leaves those that are kept as they are and
/// lowers the others by ten thousand; a position is kept where its bits stand for
/// a number of one half or more.
pub proof fn law_additive_elements(n: nat, window: int, i: int, j: int, bits: u32)
    requires
        0 <= i < n,
        0 <= j < n,
    ensures
        causal(n)[i * n + j] == if j <= i { 0int } else { -10_000 },
        sliding(n, window)[i * n + j] == if i - window < j <= i { 0int } else { -10_000 },
        bias(at_least_half(bits)) == if 0x3f00_0000 <= bits <= 0x7f80_0000 {
            0int
        } else {
            -10_000
        },
{
    lemma_row_major(i, j, n as int);
}

/// The masks that the calls give, element by element: the causal one lets
/// position `i` see itself and what came before, the windowed one no more than
/// the last `window` of those, and the converted one keeps what is marked.
pub proof fn law_mask_calls(
    n: usize,
    window: usize,
    shape: &[usize],
    marks: &[u32],
    m: AdditiveMask,
    i: int,
    j: int,
)
    requires
        0 <= i < n,
        0 <= j < n,
    ensures
        call_ensures(causal_mask, (n,), m) ==> {
            &&& m.shape@ == seq![n, n]
            &&& m.values@.len() == n * n
            &&& m.values@[i * n + j] == if j <= i { 0int } else { -10_000 }
        },
        call_ensures(sliding_window_mask, (n, window), m) ==> {
            &&& m.shape@ == seq![n, n]
            &&& m.values@.len() == n * n
            &&& m.values@[i * n + j] == if i - window < j <= i { 0int } else { -10_000 }
        },
        call_ensures(bool_to_additive, (shape, marks), m) && i < marks@.len() ==> {
            &&& m.shape@ == shape@
            &&& m.values@.len() == marks@.len()
            &&& m.values@[i] == if 0x3f00_0000 <= marks@[i] <= 0x7f80_0000 {
                0int
            } else {
                -10_000
            }
        },
{
    law_additive_elements(n as nat, window as int, i, j, marks@[i]);
    lemma_row_major(i, j, n as int);
}

} // verus!
