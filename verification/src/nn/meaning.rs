//! What the tensor operations compute, element by element.
//!
//! The arithmetic of the elements is left open: every statement holds for any
//! numbers with the operations of `Num`.
use crate::nn::init;
use crate::nn::program;
use crate::nn::program::{Dense, OpModel, ProgModel};
use vstd::prelude::*;

verus! {

/// Numbers and the operations on them.
#[verifier::reject_recursive_types(T)]
pub struct Num<T> {
    pub zero: T,
    pub one: T,
    pub add: spec_fn(T, T) -> T,
    pub sub: spec_fn(T, T) -> T,
    pub mul: spec_fn(T, T) -> T,
    pub div: spec_fn(T, T) -> T,
    pub max: spec_fn(T, T) -> T,
    pub sqrt: spec_fn(T) -> T,
    pub exp: spec_fn(T) -> T,
    pub tanh: spec_fn(T) -> T,
    /// The number of a count.
    pub of_nat: spec_fn(nat) -> T,
    /// The number with these bits.
    pub of_bits: spec_fn(u32) -> T,
    /// The row that a number names.
    pub index: spec_fn(T) -> int,
}

impl<T> Num<T> {
    /// `f(0) + .. + f(n - 1)`, from the left.
    pub open spec fn sum(self, n: int, f: spec_fn(int) -> T) -> T
        decreases n,
    {
        if n <= 0 {
            self.zero
        } else {
            (self.add)(self.sum(n - 1, f), f(n - 1))
        }
    }

    /// The largest of `f(0), .., f(n - 1)`.
    pub open spec fn largest(self, n: int, f: spec_fn(int) -> T) -> T
        decreases n,
    {
        if n <= 1 {
            f(0)
        } else {
            (self.max)(self.largest(n - 1, f), f(n - 1))
        }
    }

    /// The mean of `f(0), .., f(n - 1)`.
    pub open spec fn mean(self, n: int, f: spec_fn(int) -> T) -> T {
        (self.div)(self.sum(n, f), (self.of_nat)(n as nat))
    }

    /// `x * x`.
    pub open spec fn square(self, x: T) -> T {
        (self.mul)(x, x)
    }

    /// The share of entry `i` in the softmax of `f(0), .., f(n - 1)`.
    pub open spec fn softmax(self, n: int, f: spec_fn(int) -> T, i: int) -> T {
        (self.div)((self.exp)(f(i)), self.sum(n, |l: int| (self.exp)(f(l))))
    }
}

/// A sum and a maximum depend on the entries alone.
pub proof fn lemma_sum_congruent<T>(
    num: Num<T>,
    n: int,
    f: spec_fn(int) -> T,
    g: spec_fn(int) -> T,
)
    requires
        forall|l: int| 0 <= l < n ==> #[trigger] f(l) == g(l),
    ensures
        num.sum(n, f) == num.sum(n, g),
    decreases n,
{
    if n > 0 {
        lemma_sum_congruent(num, n - 1, f, g);
        assert(f(n - 1) == g(n - 1));
    }
}

pub proof fn lemma_largest_congruent<T>(
    num: Num<T>,
    n: int,
    f: spec_fn(int) -> T,
    g: spec_fn(int) -> T,
)
    requires
        n >= 1,
        forall|l: int| 0 <= l < n ==> #[trigger] f(l) == g(l),
    ensures
        num.largest(n, f) == num.largest(n, g),
    decreases n,
{
    assert(f(n - 1) == g(n - 1));
    if n > 1 {
        lemma_largest_congruent(num, n - 1, f, g);
    }
}

pub proof fn lemma_softmax_congruent<T>(
    num: Num<T>,
    n: int,
    f: spec_fn(int) -> T,
    g: spec_fn(int) -> T,
    i: int,
)
    requires
        forall|l: int| 0 <= l < n ==> #[trigger] f(l) == g(l),
        0 <= i < n,
    ensures
        num.softmax(n, f, i) == num.softmax(n, g, i),
{
    let ef = |l: int| (num.exp)(f(l));
    let eg = |l: int| (num.exp)(g(l));
    assert forall|l: int| 0 <= l < n implies #[trigger] ef(l) == eg(l) by {
        assert(f(l) == g(l));
    }
    lemma_sum_congruent(num, n, ef, eg);
    assert(f(i) == g(i));
}

/// Indices of one to four axes.
pub open spec fn ix1(i: int) -> Seq<int> {
    seq![i]
}

pub open spec fn ix2(i: int, j: int) -> Seq<int> {
    seq![i, j]
}

pub open spec fn ix3(i: int, j: int, k: int) -> Seq<int> {
    seq![i, j, k]
}

pub open spec fn ix4(i: int, j: int, k: int, l: int) -> Seq<int> {
    seq![i, j, k, l]
}

/// The index lies inside the shape.
pub open spec fn inside(shape: Seq<usize>, idx: Seq<int>) -> bool {
    &&& idx.len() == shape.len()
    &&& forall|i: int| 0 <= i < shape.len() ==> 0 <= #[trigger] idx[i] < shape[i]
}

/// Position of an index in row-major order.
pub open spec fn ravel(shape: Seq<usize>, idx: Seq<int>) -> int
    decreases shape.len(),
{
    if shape.len() == 0 {
        0
    } else {
        ravel(shape.drop_last(), idx.drop_last()) * shape.last() + idx.last()
    }
}

/// The index at a position in row-major order.
pub open spec fn unravel(shape: Seq<usize>, at: int) -> Seq<int>
    decreases shape.len(),
{
    if shape.len() == 0 {
        seq![]
    } else {
        let n = shape.last() as int;
        unravel(shape.drop_last(), at / n).push(at % n)
    }
}

/// Indices and positions name the same elements.
pub proof fn lemma_ravel(shape: Seq<usize>, idx: Seq<int>)
    requires
        inside(shape, idx),
    ensures
        0 <= ravel(shape, idx) < init::product(shape),
        unravel(shape, ravel(shape, idx)) == idx,
    decreases shape.len(),
{
    if shape.len() > 0 {
        let s = shape.drop_last();
        let j = idx.drop_last();
        let n = shape.last() as int;
        let r = ravel(s, j);
        let c = idx.last();
        assert(inside(s, j)) by {
            assert forall|i: int| 0 <= i < s.len() implies 0 <= #[trigger] j[i] < s[i] by {
                assert(j[i] == idx[i]);
            }
        }
        lemma_ravel(s, j);
        assert(0 <= c < n) by {
            assert(idx[shape.len() - 1] == c);
        }
        let p = init::product(s);
        assert(0 <= r * n + c < p * n) by (nonlinear_arith)
            requires
                0 <= r < p,
                0 <= c < n,
        ;
        assert((r * n + c) / n == r && (r * n + c) % n == c) by (nonlinear_arith)
            requires
                0 <= c < n,
        ;
        assert(unravel(shape, ravel(shape, idx)) =~= idx);
    } else {
        assert(idx =~= seq![]);
    }
}

impl<T> Dense<T> {
    /// The element at an index.
    pub open spec fn at(self, idx: Seq<int>) -> T {
        self.data[ravel(self.shape, idx)]
    }

    /// The tensor of the given shape with element `f(idx)` at each index.
    pub open spec fn table(shape: Seq<usize>, f: spec_fn(Seq<int>) -> T) -> Self {
        Dense {
            shape,
            data: Seq::new(init::product(shape) as nat, |i: int| f(unravel(shape, i))),
        }
    }
}

/// A table holds what it was made from.
pub proof fn lemma_table<T>(shape: Seq<usize>, idx: Seq<int>)
    requires
        inside(shape, idx),
    ensures
        forall|f: spec_fn(Seq<int>) -> T| (#[trigger] Dense::table(shape, f)).at(idx) == f(idx),
{
    lemma_ravel(shape, idx);
}

/// The index of a tensor of shape `shape` that is read at index `idx` of a
/// broadcast result: the trailing axes, and the only entry of an axis of one.
pub open spec fn broadcast_index(shape: Seq<usize>, idx: Seq<int>) -> Seq<int> {
    Seq::new(
        shape.len(),
        |i: int|
            if shape[i] == 1 {
                0
            } else {
                idx[idx.len() - shape.len() + i]
            },
    )
}

/// A tensor of the result's shape is read at the index itself.
pub proof fn lemma_broadcast_same(shape: Seq<usize>, idx: Seq<int>)
    requires
        inside(shape, idx),
    ensures
        broadcast_index(shape, idx) == idx,
{
    assert forall|i: int| 0 <= i < shape.len() implies broadcast_index(shape, idx)[i]
        == idx[i] by {
        assert(0 <= idx[i] < shape[i]);
    }
    assert(broadcast_index(shape, idx) =~= idx);
}

/// An element-wise operation on two tensors.
pub open spec fn pointwise<T>(
    f: spec_fn(T, T) -> T,
    a: Dense<T>,
    b: Dense<T>,
) -> Dense<T> {
    Dense::table(
        match program::broadcast_shape(a.shape, b.shape) {
            Some(s) => s,
            None => seq![],
        },
        |idx: Seq<int>|
            f(a.at(broadcast_index(a.shape, idx)), b.at(broadcast_index(b.shape, idx))),
    )
}

/// An index with two entries exchanged.
pub open spec fn swapped(idx: Seq<int>, i: int, j: int) -> Seq<int> {
    idx.update(i, idx[j]).update(j, idx[i])
}

/// The element of a padded image at a row and a column, or zero outside it.
pub open spec fn padded<T>(
    num: Num<T>,
    x: Dense<T>,
    n: int,
    c: int,
    row: int,
    col: int,
) -> T {
    if 0 <= row < x.shape[2] && 0 <= col < x.shape[3] {
        x.at(ix4(n, c, row, col))
    } else {
        num.zero
    }
}

/// Output `[n, o, y, z]` of a convolution with stride one: the sum over the
/// channels and the window of the padded image times the weights.
pub open spec fn convolved<T>(
    num: Num<T>,
    x: Dense<T>,
    w: Dense<T>,
    pad_h: int,
    pad_w: int,
    n: int,
    o: int,
    y: int,
    z: int,
) -> T {
    num.sum(
        w.shape[1] as int,
        |c: int|
            num.sum(
                w.shape[2] as int,
                |i: int|
                    num.sum(
                        w.shape[3] as int,
                        |j: int|
                            (num.mul)(
                                padded(num, x, n, c, y + i - pad_h, z + j - pad_w),
                                w.at(ix4(o, c, i, j)),
                            ),
                    ),
            ),
    )
}

/// The mean of a function of the elements of channel `c` over the batch and
/// the spatial axes.
pub open spec fn channel_mean<T>(num: Num<T>, x: Dense<T>, c: int, f: spec_fn(T) -> T) -> T {
    (num.div)(
        num.sum(
            x.shape[0] as int,
            |n: int|
                num.sum(
                    x.shape[2] as int,
                    |y: int| num.sum(x.shape[3] as int, |z: int| f(x.at(ix4(n, c, y, z)))),
                ),
        ),
        (num.of_nat)((x.shape[0] * x.shape[2] * x.shape[3]) as nat),
    )
}

/// `(v - mean) / sqrt(var + eps) * g + b`.
pub open spec fn standardized<T>(num: Num<T>, v: T, mean: T, var: T, eps: T, g: T, b: T) -> T {
    (num.add)(
        (num.mul)((num.div)((num.sub)(v, mean), (num.sqrt)((num.add)(var, eps))), g),
        b,
    )
}

/// The mean of the row of `x` that `idx` lies in.
pub open spec fn row_mean<T>(num: Num<T>, x: Dense<T>, idx: Seq<int>) -> T {
    num.mean(
        x.shape.last() as int,
        |l: int| x.at(idx.update(idx.len() - 1, l)),
    )
}

/// The mean of the squares of the row of `x` that `idx` lies in.
pub open spec fn row_mean_square<T>(num: Num<T>, x: Dense<T>, idx: Seq<int>) -> T {
    num.mean(
        x.shape.last() as int,
        |l: int| num.square(x.at(idx.update(idx.len() - 1, l))),
    )
}

/// What an operation computes from its arguments.
pub open spec fn meaning<T>(num: Num<T>, op: OpModel, a: Seq<Dense<T>>) -> Dense<T> {
    let shape = if a.len() > 0 {
        a[0].shape
    } else {
        seq![]
    };
    match op {
        OpModel::MatMul => Dense::table(
            seq![a[0].shape[0], a[1].shape[1]],
            |i: Seq<int>|
                num.sum(
                    a[0].shape[1] as int,
                    |l: int| (num.mul)(a[0].at(ix2(i[0], l)), a[1].at(ix2(l, i[1]))),
                ),
        ),
        OpModel::AddBias => Dense::table(
            shape,
            |i: Seq<int>| (num.add)(a[0].at(i), a[1].at(ix1(i.last()))),
        ),
        OpModel::Bmm => Dense::table(
            seq![a[0].shape[0], a[0].shape[1], a[1].shape[2]],
            |i: Seq<int>|
                num.sum(
                    a[0].shape[2] as int,
                    |l: int| (num.mul)(a[0].at(ix3(i[0], i[1], l)), a[1].at(ix3(i[0], l, i[2]))),
                ),
        ),
        OpModel::Add => pointwise(num.add, a[0], a[1]),
        OpModel::Sub => pointwise(num.sub, a[0], a[1]),
        OpModel::Mul => pointwise(num.mul, a[0], a[1]),
        OpModel::Div => pointwise(num.div, a[0], a[1]),
        OpModel::Sqrt => Dense::table(shape, |i: Seq<int>| (num.sqrt)(a[0].at(i))),
        OpModel::Relu => Dense::table(shape, |i: Seq<int>| (num.max)(a[0].at(i), num.zero)),
        OpModel::Sigmoid => Dense::table(
            shape,
            |i: Seq<int>|
                (num.div)(
                    num.one,
                    (num.add)(num.one, (num.exp)((num.sub)(num.zero, a[0].at(i)))),
                ),
        ),
        OpModel::Tanh => Dense::table(shape, |i: Seq<int>| (num.tanh)(a[0].at(i))),
        OpModel::Softmax(d) => Dense::table(
            shape,
            |i: Seq<int>|
                num.softmax(
                    a[0].shape[d as int] as int,
                    |l: int| a[0].at(i.update(d as int, l)),
                    i[d as int],
                ),
        ),
        OpModel::MeanDim(d) => Dense::table(
            shape.update(d as int, 1),
            |i: Seq<int>|
                num.mean(
                    a[0].shape[d as int] as int,
                    |l: int| a[0].at(i.update(d as int, l)),
                ),
        ),
        OpModel::Transpose(p, q) => Dense::table(
            shape.update(p as int, shape[q as int]).update(q as int, shape[p as int]),
            |i: Seq<int>| a[0].at(swapped(i, p as int, q as int)),
        ),
        OpModel::Reshape(s) | OpModel::Detach(s) => Dense { shape: s, data: a[0].data },
        OpModel::Tile(n) => Dense {
            shape: seq![(n * a[0].data.len()) as usize],
            data: Seq::new(
                n * a[0].data.len(),
                |i: int| a[0].data[i % (a[0].data.len() as int)],
            ),
        },
        OpModel::InvSqrt(n) => Dense {
            shape: seq![],
            data: seq![(num.div)(num.one, (num.sqrt)((num.of_nat)(n)))],
        },
        OpModel::Count(n) => Dense { shape: seq![], data: seq![(num.of_nat)(n)] },
        OpModel::Constant(b) => Dense { shape: seq![], data: seq![(num.of_bits)(b)] },
        OpModel::Conv2d { pad_h, pad_w } => Dense::table(
            seq![
                shape[0],
                a[1].shape[0],
                (shape[2] + 2 * pad_h - a[1].shape[2] + 1) as usize,
                (shape[3] + 2 * pad_w - a[1].shape[3] + 1) as usize,
            ],
            |i: Seq<int>|
                {
                    let v = convolved(
                        num,
                        a[0],
                        a[1],
                        pad_h as int,
                        pad_w as int,
                        i[0],
                        i[1],
                        i[2],
                        i[3],
                    );
                    if a.len() == 3 {
                        (num.add)(v, a[2].at(ix1(i[1])))
                    } else {
                        v
                    }
                },
        ),
        OpModel::MaxPool2d { kernel, stride } => Dense::table(
            seq![
                shape[0],
                shape[1],
                ((shape[2] - kernel.0) / (stride.0 as int) + 1) as usize,
                ((shape[3] - kernel.1) / (stride.1 as int) + 1) as usize,
            ],
            |i: Seq<int>|
                num.largest(
                    kernel.0 as int,
                    |y: int|
                        num.largest(
                            kernel.1 as int,
                            |z: int|
                                a[0].at(ix4(i[0], i[1], i[2] * stride.0 + y, i[3] * stride.1 + z),
                                ),
                        ),
                ),
        ),
        OpModel::BatchNorm2d(e) => Dense::table(
            shape,
            |i: Seq<int>|
                {
                    let mean = channel_mean(num, a[0], i[1], |v: T| v);
                    standardized(
                        num,
                        a[0].at(i),
                        mean,
                        channel_mean(num, a[0], i[1], |v: T| num.square((num.sub)(v, mean))),
                        (num.of_bits)(e),
                        a[1].at(ix1(i[1])),
                        a[2].at(ix1(i[1])),
                    )
                },
        ),
        OpModel::FusedLayerNorm(e) => Dense::table(
            shape,
            |i: Seq<int>|
                fused_layer(
                    num,
                    a[0].shape.last() as int,
                    |l: int| a[0].at(i.update(i.len() - 1, l)),
                    i.last(),
                    (num.of_bits)(e),
                    a[1].data[i.last()],
                    a[2].data[i.last()],
                ),
        ),
        OpModel::FusedRmsNorm(e) => Dense::table(
            shape,
            |i: Seq<int>|
                fused_rms(
                    num,
                    a[0].shape.last() as int,
                    |l: int| a[0].at(i.update(i.len() - 1, l)),
                    i.last(),
                    (num.of_bits)(e),
                    a[1].data[i.last()],
                ),
        ),
        OpModel::IndexSelect => Dense::table(
            seq![a[1].shape[0], a[0].shape[1]],
            |i: Seq<int>| a[0].at(ix2((num.index)(a[1].at(seq![i[0]])), i[1])),
        ),
    }
}

/// `sum * (1 / n)`.
pub open spec fn scaled_sum<T>(num: Num<T>, n: int, f: spec_fn(int) -> T) -> T {
    (num.mul)(num.sum(n, f), (num.div)(num.one, (num.of_nat)(n as nat)))
}

/// Entry `i` of a row of `n`, normalised in one pass: the variance is the mean
/// of the squares less the square of the mean, and not below zero.
pub open spec fn fused_layer<T>(
    num: Num<T>,
    n: int,
    row: spec_fn(int) -> T,
    i: int,
    eps: T,
    g: T,
    b: T,
) -> T {
    let mean = scaled_sum(num, n, row);
    let squares = scaled_sum(num, n, |l: int| num.square(row(l)));
    let var = (num.max)((num.sub)(squares, num.square(mean)), num.zero);
    let inv = (num.div)(num.one, (num.sqrt)((num.add)(var, eps)));
    (num.add)((num.mul)((num.mul)((num.sub)(row(i), mean), inv), g), b)
}

/// Entry `i` of a row of `n`, divided by the root of the mean of the squares
/// and scaled.
pub open spec fn fused_rms<T>(
    num: Num<T>,
    n: int,
    row: spec_fn(int) -> T,
    i: int,
    eps: T,
    g: T,
) -> T {
    let squares = scaled_sum(num, n, |l: int| num.square(row(l)));
    let inv = (num.div)(num.one, (num.sqrt)((num.add)(squares, eps)));
    (num.mul)((num.mul)(row(i), inv), g)
}

/// The interpretation of the operations over the given numbers.
pub open spec fn over<T>(num: Num<T>) -> spec_fn(OpModel, Seq<Dense<T>>) -> Dense<T> {
    |op: OpModel, a: Seq<Dense<T>>| meaning(num, op, a)
}

/// All values of a program.
pub open spec fn values<T>(num: Num<T>, p: ProgModel, inputs: Seq<Dense<T>>) -> Seq<Dense<T>> {
    p.values(over(num), inputs)
}

/// The tensor that a program computes from its inputs.
pub open spec fn computes<T>(num: Num<T>, p: ProgModel, inputs: Seq<Dense<T>>) -> Dense<T> {
    p.value(over(num), inputs)
}

/// `q` goes on from `p`: the values of `p` are still there.
pub open spec fn goes_on<T>(
    num: Num<T>,
    p: ProgModel,
    q: ProgModel,
    inputs: Seq<Dense<T>>,
) -> bool {
    let e = values(num, p, inputs);
    let f = values(num, q, inputs);
    &&& q.inputs == p.inputs
    &&& e.len() <= f.len()
    &&& forall|i: int| 0 <= i < e.len() ==> #[trigger] f[i] == e[i]
    &&& q.result < f.len()
    &&& f[q.result as int] == computes(num, q, inputs)
}

/// A further step adds what its operation computes.
pub proof fn lemma_step<T>(
    num: Num<T>,
    p: ProgModel,
    inputs: Seq<Dense<T>>,
    op: OpModel,
    args: Seq<nat>,
)
    requires
        inputs.len() == p.inputs,
    ensures
        goes_on(num, p, p.emit(op, args), inputs),
        values(num, p.emit(op, args), inputs).len() == values(num, p, inputs).len() + 1,
        args.len() == 0 ==> computes(num, p.emit(op, args), inputs) == meaning(num, op, seq![]),
        args.len() == 1 ==> computes(num, p.emit(op, args), inputs) == meaning(
            num,
            op,
            seq![values(num, p, inputs)[args[0] as int]],
        ),
        args.len() == 2 ==> computes(num, p.emit(op, args), inputs) == meaning(
            num,
            op,
            seq![
                values(num, p, inputs)[args[0] as int],
                values(num, p, inputs)[args[1] as int],
            ],
        ),
        args.len() == 3 ==> computes(num, p.emit(op, args), inputs) == meaning(
            num,
            op,
            seq![
                values(num, p, inputs)[args[0] as int],
                values(num, p, inputs)[args[1] as int],
                values(num, p, inputs)[args[2] as int],
            ],
        ),
{
    program::lemma_evaluate_emit(over(num), p, inputs, op, args);
    let e = values(num, p, inputs);
    let picked = program::pick_values(e, args);
    if args.len() == 0 {
        assert(picked =~= seq![]);
    } else if args.len() == 1 {
        assert(picked =~= seq![e[args[0] as int]]);
    } else if args.len() == 2 {
        assert(picked =~= seq![e[args[0] as int], e[args[1] as int]]);
    } else if args.len() == 3 {
        assert(picked =~= seq![e[args[0] as int], e[args[1] as int], e[args[2] as int]]);
    }
}

/// Going on twice is going on.
pub proof fn lemma_goes_on<T>(
    num: Num<T>,
    p: ProgModel,
    q: ProgModel,
    r: ProgModel,
    inputs: Seq<Dense<T>>,
)
    requires
        goes_on(num, p, q, inputs),
        goes_on(num, q, r, inputs),
    ensures
        goes_on(num, p, r, inputs),
{
    let e = values(num, p, inputs);
    let f = values(num, q, inputs);
    let g = values(num, r, inputs);
    assert forall|i: int| 0 <= i < e.len() implies #[trigger] g[i] == e[i] by {
        assert(f[i] == e[i]);
    }
}

/// An affine map: entry `j` of the row of `x` at `lead`, times the weight, plus
/// the bias where there is one.
pub open spec fn affine_at<T>(
    num: Num<T>,
    x: Dense<T>,
    w: Dense<T>,
    b: Option<Dense<T>>,
    lead: Seq<int>,
    j: int,
) -> T {
    let v = num.sum(
        w.shape[0] as int,
        |l: int| (num.mul)(x.at(lead.push(l)), w.at(ix2(l, j))),
    );
    match b {
        Some(c) => (num.add)(v, c.at(ix1(j))),
        None => v,
    }
}

/// Positions in tensors of up to four axes.
pub proof fn lemma_ravel_short(s: Seq<usize>, i: Seq<int>)
    requires
        s.len() == i.len(),
    ensures
        s.len() == 1 ==> ravel(s, i) == i[0],
        s.len() == 2 ==> ravel(s, i) == i[0] * s[1] + i[1],
        s.len() == 3 ==> ravel(s, i) == (i[0] * s[1] + i[1]) * s[2] + i[2],
        s.len() == 4 ==> ravel(s, i) == ((i[0] * s[1] + i[1]) * s[2] + i[2]) * s[3] + i[3],
    decreases s.len(),
{
    reveal_with_fuel(ravel, 2);
    if 1 <= s.len() <= 4 {
        lemma_ravel_short(s.drop_last(), i.drop_last());
    }
}

} // verus!
