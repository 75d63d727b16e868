//! What the parameters of new layers hold.
use crate::nn::attention::MultiHeadAttention;
use crate::nn::conv;
use crate::nn::conv::{Conv1d, Conv2d, MaxPool2d};
use crate::nn::embedding::Embedding;
use crate::nn::init;
use crate::nn::init::{Draw, Init};
use crate::nn::linear::{Bilinear, Linear};
use crate::nn::meaning;
use crate::nn::meaning::Num;
use crate::nn::module::Module;
use crate::nn::norm::{BatchNorm2d, LayerNorm, RMSNorm};
use crate::nn::param;
use crate::nn::param::{ParamModel, ValuesModel};
use crate::nn::pool::CrossAttentionPool;
use crate::nn::program::Dense;
use vstd::prelude::*;

verus! {

/// The elements of a parameter as it was filled: `noise` is the number of a
/// draw that is scaled by a fan, and `drawn` what a strategy draws for a shape
/// from a seed.
pub open spec fn initial<T>(
    num: Num<T>,
    noise: spec_fn(u32, nat) -> T,
    drawn: spec_fn(Init, Seq<usize>, u64) -> Seq<T>,
    p: ParamModel,
) -> Dense<T> {
    let n = init::product(p.shape) as nat;
    Dense {
        shape: p.shape,
        data: match p.values {
            ValuesModel::Zeros => Seq::new(n, |i: int| num.zero),
            ValuesModel::Ones => Seq::new(n, |i: int| num.one),
            ValuesModel::Noise { draws, fan } => Seq::new(n, |i: int| noise(draws[i], fan)),
            ValuesModel::Seeded { init, seed } => drawn(init, p.shape, seed),
        },
    }
}

/// A vector of `n` times the same number.
pub open spec fn constant<T>(d: Dense<T>, n: usize, c: T) -> bool {
    &&& d.shape == seq![n]
    &&& forall|j: int| 0 <= j < n ==> #[trigger] d.at(meaning::ix1(j)) == c
}

proof fn lemma_vector<T>(d: Dense<T>, n: usize, c: T)
    requires
        d.shape == seq![n],
        d.data == Seq::new(init::product(seq![n]) as nat, |i: int| c),
    ensures
        constant(d, n, c),
{
    assert forall|j: int| 0 <= j < n implies #[trigger] d.at(meaning::ix1(j)) == c by {
        assert(meaning::inside(seq![n], meaning::ix1(j)));
        meaning::lemma_ravel(seq![n], meaning::ix1(j));
    }
}

/// A `[rows, cols]` matrix of noise that is scaled by `fan`: the draw of an
/// element is the upper half of the generator's state two steps behind the
/// element's position.
pub open spec fn noisy<T>(
    noise: spec_fn(u32, nat) -> T,
    d: Dense<T>,
    rows: usize,
    cols: usize,
    fan: usize,
) -> bool {
    &&& d.shape == seq![rows, cols]
    &&& forall|i: int, j: int|
        0 <= i < rows && 0 <= j < cols ==> #[trigger] d.at(meaning::ix2(i, j)) == noise(
            ((((i * cols + j) * (6_364_136_223_846_793_005 * 6_364_136_223_846_793_005)
                + 6_364_136_223_846_793_005 + 1) % 0x1_0000_0000_0000_0000) / 0x1_0000_0000) as u32,
            fan as nat,
        )
}

proof fn lemma_matrix<T>(
    num: Num<T>,
    noise: spec_fn(u32, nat) -> T,
    drawn: spec_fn(Init, Seq<usize>, u64) -> Seq<T>,
    rows: usize,
    cols: usize,
    fan: usize,
)
    ensures
        noisy(
            noise,
            initial(num, noise, drawn, ParamModel::noise_matrix(rows, cols, fan)),
            rows,
            cols,
            fan,
        ),
{
    let d = initial(num, noise, drawn, ParamModel::noise_matrix(rows, cols, fan));
    let s = seq![rows, cols];
    assert(init::product(s) == rows * cols) by {
        reveal_with_fuel(init::product, 3);
        assert(s.drop_last().drop_last() =~= seq![]);
        assert(s.drop_last().last() == rows);
        assert(s.last() == cols);
    }
    assert forall|i: int, j: int|
        0 <= i < rows && 0 <= j < cols implies #[trigger] d.at(meaning::ix2(i, j)) == noise(
        ((((i * cols + j) * (6_364_136_223_846_793_005 * 6_364_136_223_846_793_005)
            + 6_364_136_223_846_793_005 + 1) % 0x1_0000_0000_0000_0000) / 0x1_0000_0000) as u32,
        fan as nat,
    ) by {
        let idx = meaning::ix2(i, j);
        assert(meaning::inside(s, idx));
        meaning::lemma_ravel(s, idx);
        meaning::lemma_ravel_short(s, idx);
        param::law_noise_closed_form(i * cols + j);
    }
}

proof fn lemma_zeros<T>(
    num: Num<T>,
    noise: spec_fn(u32, nat) -> T,
    drawn: spec_fn(Init, Seq<usize>, u64) -> Seq<T>,
    n: usize,
)
    ensures
        constant(initial(num, noise, drawn, ParamModel::zeros(n)), n, num.zero),
        constant(initial(num, noise, drawn, ParamModel::ones(n)), n, num.one),
{
    lemma_vector(initial(num, noise, drawn, ParamModel::zeros(n)), n, num.zero);
    lemma_vector(initial(num, noise, drawn, ParamModel::ones(n)), n, num.one);
}

/// A new normalisation scales by one and shifts by zero.
pub proof fn law_new_norms_are_neutral<T>(
    num: Num<T>,
    noise: spec_fn(u32, nat) -> T,
    drawn: spec_fn(Init, Seq<usize>, u64) -> Seq<T>,
    n: usize,
    b: BatchNorm2d,
    l: LayerNorm,
    r: RMSNorm,
)
    ensures
        call_ensures(BatchNorm2d::new, (n,), b) ==> {
            &&& constant(initial(num, noise, drawn, b.gamma@), n, num.one)
            &&& constant(initial(num, noise, drawn, b.beta@), n, num.zero)
            &&& b.eps == 0x3727_c5ac
        },
        call_ensures(LayerNorm::new, (n,), l) ==> {
            &&& constant(initial(num, noise, drawn, l.gamma@), n, num.one)
            &&& constant(initial(num, noise, drawn, l.beta@), n, num.zero)
            &&& l.eps == 0x3727_c5ac
        },
        call_ensures(RMSNorm::new, (n,), r) ==> {
            &&& constant(initial(num, noise, drawn, r.gamma@), n, num.one)
            &&& r.eps == 0x3586_37bd
        },
{
    lemma_zeros(num, noise, drawn, n);
}

/// A new linear layer has an `[in, out]` matrix of noise that is scaled by the
/// number of inputs, and a bias of zeros unless it has none.
pub proof fn law_new_linear<T>(
    num: Num<T>,
    noise: spec_fn(u32, nat) -> T,
    drawn: spec_fn(Init, Seq<usize>, u64) -> Seq<T>,
    inputs: usize,
    outputs: usize,
    l: Linear,
)
    ensures
        call_ensures(Linear::new, (inputs, outputs), l) ==> {
            &&& noisy(noise, initial(num, noise, drawn, l.weight@), inputs, outputs, inputs)
            &&& l.bias matches Some(c) && constant(
                initial(num, noise, drawn, c@),
                outputs,
                num.zero,
            )
        },
        call_ensures(Linear::no_bias, (inputs, outputs), l) ==> {
            &&& noisy(noise, initial(num, noise, drawn, l.weight@), inputs, outputs, inputs)
            &&& l.bias is None
        },
{
    lemma_zeros(num, noise, drawn, outputs);
    lemma_matrix(num, noise, drawn, inputs, outputs, inputs);
}

/// A new attention layer has four projections of `[embed, embed]` noise and
/// zero biases, and its heads make up the embedding.
pub proof fn law_new_attention<T>(
    num: Num<T>,
    noise: spec_fn(u32, nat) -> T,
    drawn: spec_fn(Init, Seq<usize>, u64) -> Seq<T>,
    d: usize,
    heads: usize,
    m: MultiHeadAttention,
    i: int,
)
    requires
        call_ensures(MultiHeadAttention::new, (d, heads), m),
        heads > 0,
        d % heads == 0,
        0 <= i < 4,
    ensures
        m.param_models().len() == 8,
        noisy(noise, initial(num, noise, drawn, m.param_models()[2 * i]), d, d, d),
        constant(initial(num, noise, drawn, m.param_models()[2 * i + 1]), d, num.zero),
        m.num_heads == heads,
        m.head_dim * heads == d,
{
    lemma_zeros(num, noise, drawn, d);
    lemma_matrix(num, noise, drawn, d, d, d);
    assert(d / heads * heads == d) by (nonlinear_arith)
        requires
            heads > 0,
            d % heads == 0,
    ;
}

proof fn lemma_kernel(
    slope2: spec_fn(u32) -> (int, int),
    outputs: usize,
    inputs: usize,
    a: usize,
    b: usize,
)
    ensures
        inputs * (a * b) <= usize::MAX ==> {
            let d = init::draw_of(conv::conv_init(), seq![outputs, inputs, a, b]);
            d is Within && kept(slope2, d, inputs * (a * b))
        },
{
    let s = seq![outputs, inputs, a, b];
    assert(init::product(s.skip(2)) == a * b) by {
        reveal_with_fuel(init::product, 3);
        assert(s.skip(2) =~= seq![a, b]);
        assert(s.skip(2).drop_last() =~= seq![a]);
        assert(s.skip(2).drop_last().drop_last() =~= seq![]);
    }
    assert(inputs * (a * b) >= 0) by (nonlinear_arith);
    let fan = inputs * (a * b);
    assert(init::fans(s).0 == fan);
    if fan <= usize::MAX {
        let d = init::draw_of(conv::conv_init(), s);
        assert(1u32 * (fan as usize) == fan && 2u32 * 3u32 == 6) by (nonlinear_arith)
            requires
                0 <= fan <= usize::MAX,
        ;
        let v = init::variance(slope2, d).0;
        assert(init::variance(slope2, d) == (6int, 3 * fan));
        assert(v * fan == 2 * (3 * fan)) by (nonlinear_arith)
            requires
                v == 6,
        ;
    }
}

/// A new convolution has an `[out, in, k, k]` kernel, or `[out, in, 1, k]`
/// along one axis, drawn uniformly with the variance `2 / fan_in` that keeps
/// the signal behind a cut-off at zero, and a bias of zeros.
pub proof fn law_new_convolutions<T>(
    num: Num<T>,
    noise: spec_fn(u32, nat) -> T,
    drawn: spec_fn(Init, Seq<usize>, u64) -> Seq<T>,
    slope2: spec_fn(u32) -> (int, int),
    inputs: usize,
    outputs: usize,
    k: usize,
    c: Conv2d,
    e: Conv1d,
)
    ensures
        call_ensures(Conv2d::new, (inputs, outputs, k), c) ==> {
            &&& c.weight@.shape == seq![outputs, inputs, k, k]
            &&& inputs * (k * k) <= usize::MAX ==> {
                &&& c.weight@.values matches ValuesModel::Seeded { init, seed }
                &&& init::draw_of(init, c.weight@.shape) is Within
                &&& kept(slope2, init::draw_of(init, c.weight@.shape), inputs * (k * k))
            }
            &&& c.bias matches Some(b) && constant(
                initial(num, noise, drawn, b@),
                outputs,
                num.zero,
            )
            &&& c.padding == (0usize, 0usize)
        },
        call_ensures(Conv1d::new, (inputs, outputs, k), e) ==> {
            &&& e.inner.weight@.shape == seq![outputs, inputs, 1usize, k]
            &&& inputs * k <= usize::MAX ==> {
                &&& e.inner.weight@.values matches ValuesModel::Seeded { init, seed }
                &&& init::draw_of(init, e.inner.weight@.shape) is Within
                &&& kept(slope2, init::draw_of(init, e.inner.weight@.shape), inputs * k)
            }
            &&& e.inner.bias matches Some(b) && constant(
                initial(num, noise, drawn, b@),
                outputs,
                num.zero,
            )
            &&& e.inner.padding == (0usize, 0usize)
        },
{
    lemma_zeros(num, noise, drawn, outputs);
    if call_ensures(Conv2d::new, (inputs, outputs, k), c) {
        lemma_kernel(slope2, outputs, inputs, k, k);
    }
    if call_ensures(Conv1d::new, (inputs, outputs, k), e) {
        lemma_kernel(slope2, outputs, inputs, 1, k);
    }
}

/// The draw has the variance `2 / fan`.
pub open spec fn kept(slope2: spec_fn(u32) -> (int, int), d: Draw, fan: int) -> bool {
    init::variance(slope2, d).0 * fan == 2 * init::variance(slope2, d).1
}

/// A new embedding has a `[vocabulary, width]` table that is drawn from the
/// standard normal distribution, with the seed that it was given or zero.
pub proof fn law_new_embedding(vocab: usize, width: usize, seed: u64, e: Embedding)
    ensures
        call_ensures(Embedding::new, (vocab, width), e) ==> {
            &&& e.weight@.shape == seq![vocab, width]
            &&& e.weight@.values == (ValuesModel::Seeded {
                init: Init::Normal { mean: 0, std: 0x3f80_0000 },
                seed: 0,
            })
        },
        call_ensures(Embedding::with_seed, (vocab, width, seed), e) ==> {
            &&& e.weight@.shape == seq![vocab, width]
            &&& e.weight@.values == (ValuesModel::Seeded {
                init: Init::Normal { mean: 0, std: 0x3f80_0000 },
                seed,
            })
        },
{
}

/// A new bilinear form has noise that is scaled by the larger of its two
/// widths, and a bias of one zero.
pub proof fn law_new_bilinear<T>(
    num: Num<T>,
    noise: spec_fn(u32, nat) -> T,
    drawn: spec_fn(Init, Seq<usize>, u64) -> Seq<T>,
    first: usize,
    second: usize,
    b: Bilinear,
)
    requires
        call_ensures(Bilinear::new, (first, second), b),
    ensures
        ({
            let fan = if first >= second { first } else { second };
            &&& noisy(noise, initial(num, noise, drawn, b.weight@), first, second, fan)
            &&& b.bias matches Some(c) && constant(initial(num, noise, drawn, c@), 1, num.zero)
        }),
{
    lemma_zeros(num, noise, drawn, 1);
    lemma_matrix(num, noise, drawn, first, second, if first >= second { first } else { second });
}

/// A new pool has a bank of noise queries, neutral normalisations, and the
/// projections of new attention.
pub proof fn law_new_pool<T>(
    num: Num<T>,
    noise: spec_fn(u32, nat) -> T,
    drawn: spec_fn(Init, Seq<usize>, u64) -> Seq<T>,
    dim: usize,
    queries: usize,
    heads: usize,
    c: CrossAttentionPool,
    i: int,
)
    requires
        call_ensures(CrossAttentionPool::new, (dim, queries, heads), c),
        0 <= i < 4,
    ensures
        noisy(noise, initial(num, noise, drawn, c.query@), queries, dim, dim),
        constant(initial(num, noise, drawn, c.query_norm.gamma@), dim, num.one),
        constant(initial(num, noise, drawn, c.kv_norm.gamma@), dim, num.one),
        noisy(noise, initial(num, noise, drawn, c.mha.param_models()[2 * i]), dim, dim, dim),
        constant(initial(num, noise, drawn, c.mha.param_models()[2 * i + 1]), dim, num.zero),
        c.mha.num_heads == heads,
        c.dim == dim && c.num_queries == queries,
{
    lemma_zeros(num, noise, drawn, dim);
    lemma_matrix(num, noise, drawn, dim, dim, dim);
    lemma_matrix(num, noise, drawn, queries, dim, dim);
}

/// What is asked for is kept: paddings, kernels, strides and epsilons stand
/// where they were put, and a layer without bias differs in nothing else.
pub proof fn law_settings_are_kept(
    inputs: usize,
    outputs: usize,
    size: (usize, usize),
    other: (usize, usize),
    eps: u32,
    a: Conv2d,
    b: Conv2d,
    c: Conv1d,
    p: MaxPool2d,
    n: BatchNorm2d,
    l: LayerNorm,
    r: RMSNorm,
)
    ensures
        call_ensures(Conv2d::with_padding, (inputs, outputs, size, other), a) ==> {
            &&& a.weight@.shape == seq![outputs, inputs, size.0, size.1]
            &&& a.padding == other
        },
        call_ensures(Conv2d::no_bias, (a,), b) ==> b == (Conv2d { bias: None, ..a }),
        call_ensures(Conv1d::with_padding, (inputs, outputs, size.0, other.0), c) ==> {
            &&& c.inner.weight@.shape == seq![outputs, inputs, 1usize, size.0]
            &&& c.inner.padding == (0usize, other.0)
        },
        call_ensures(MaxPool2d::new, (size.0,), p) ==> p.kernel_size == (size.0, size.0)
            && p.stride == (size.0, size.0),
        call_ensures(MaxPool2d::with_stride, (size, other), p) ==> p.kernel_size == size
            && p.stride == other,
        call_ensures(BatchNorm2d::with_eps, (inputs, eps), n) ==> n.eps == eps && n.gamma@
            == ParamModel::ones(inputs) && n.beta@ == ParamModel::zeros(inputs),
        call_ensures(LayerNorm::with_eps, (inputs, eps), l) ==> l.eps == eps && l.gamma@
            == ParamModel::ones(inputs) && l.beta@ == ParamModel::zeros(inputs),
        call_ensures(RMSNorm::with_eps, (inputs, eps), r) ==> r.eps == eps && r.gamma@
            == ParamModel::ones(inputs),
{
}

} // verus!
