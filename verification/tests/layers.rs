//! Layers, run by a small single-precision interpreter of forward programs.
use rand::rngs::StdRng;
use rand::{Rng, SeedableRng};
use rustorch::nn::activation::{relu, sigmoid, tanh, Relu, Sigmoid, Tanh};
use rustorch::nn::attention::{
    detach, scaled_dot_product_attention, MultiHeadAttention, SingleHeadAttention,
};
use rustorch::nn::checkpointed::Checkpointed;
use rustorch::nn::container::{ModuleDict, ModuleList};
use rustorch::nn::conv::{Conv1d, Conv2d, MaxPool2d};
use rustorch::nn::embedding::Embedding;
use rustorch::nn::fused_norm::{
    layer_norm_forward_f32_fused, rms_norm_forward_f32_fused, row_tasks, NormArith,
};
use rustorch::nn::hooks::{HookHandle, HookKind, HookedModule};
use rustorch::nn::init::{
    calculate_fan, init_with_seed, plan_draws, Draw, FanMode, Gain, Init, Nonlinearity, Sampler,
    Spread,
};
use rustorch::nn::layer::Layer;
use rustorch::nn::linear::{Bilinear, Linear};
use rustorch::nn::loss::{CTCLoss, Criterion, CrossEntropyLoss, LossCall, MseLoss, Reduction};
use rustorch::nn::masks::{
    bool_to_additive, causal_mask, sliding_window_mask, AdditiveMask, MASK_NEG,
};
use rustorch::nn::module::{InputState, Module, ModuleError};
use rustorch::nn::norm::{BatchNorm2d, LayerNorm, RMSNorm};
use rustorch::nn::param::{noise_draw, Dtype, Parameter, Values};
use rustorch::nn::pool::{tile_bank, tile_queries, CrossAttentionPool};
use rustorch::nn::program::{Op, Program};
use std::cell::{Cell, RefCell};

#[derive(Clone, Debug)]
struct Tensor {
    shape: Vec<usize>,
    data: Vec<f32>,
}

fn tensor(shape: &[usize], data: Vec<f32>) -> Tensor {
    assert_eq!(shape.iter().product::<usize>(), data.len());
    Tensor { shape: shape.to_vec(), data }
}

fn ramp(shape: &[usize], scale: f32) -> Tensor {
    let n: usize = shape.iter().product();
    tensor(shape, (0..n).map(|i| i as f32 * scale).collect())
}

fn strides(shape: &[usize]) -> Vec<usize> {
    let mut s = vec![1; shape.len()];
    for i in (0..shape.len().saturating_sub(1)).rev() {
        s[i] = s[i + 1] * shape[i + 1];
    }
    s
}

fn broadcast(a: &Tensor, b: &Tensor, f: fn(f32, f32) -> f32) -> Tensor {
    let rank = a.shape.len().max(b.shape.len());
    let dim = |t: &Tensor, i: usize| -> usize {
        let pad = rank - t.shape.len();
        if i < pad {
            1
        } else {
            t.shape[i - pad]
        }
    };
    let shape: Vec<usize> = (0..rank)
        .map(|i| {
            let (x, y) = (dim(a, i), dim(b, i));
            assert!(x == y || x == 1 || y == 1, "cannot broadcast");
            if x == 1 {
                y
            } else {
                x
            }
        })
        .collect();
    let out_strides = strides(&shape);
    let (sa, sb) = (strides(&a.shape), strides(&b.shape));
    let n: usize = shape.iter().product();
    let pick = |t: &Tensor, s: &[usize], flat: usize| -> f32 {
        let pad = rank - t.shape.len();
        let mut off = 0;
        for i in pad..rank {
            let idx = flat / out_strides[i] % shape[i];
            if t.shape[i - pad] != 1 {
                off += idx * s[i - pad];
            }
        }
        t.data[off]
    };
    let data = (0..n).map(|i| f(pick(a, &sa, i), pick(b, &sb, i))).collect();
    tensor(&shape, data)
}

fn map(a: &Tensor, f: fn(f32) -> f32) -> Tensor {
    tensor(&a.shape, a.data.iter().map(|&v| f(v)).collect())
}

fn matmul(a: &[f32], b: &[f32], m: usize, k: usize, n: usize) -> Vec<f32> {
    let mut out = vec![0.0; m * n];
    for i in 0..m {
        for j in 0..n {
            let mut s = 0.0;
            for l in 0..k {
                s += a[i * k + l] * b[l * n + j];
            }
            out[i * n + j] = s;
        }
    }
    out
}

type Binary = fn(f32, f32) -> f32;
type Arith = NormArith<f32, Binary, Binary, Binary, Binary, fn(usize) -> f32, fn(f32) -> f32>;

fn arith() -> Arith {
    NormArith {
        zero: 0.0,
        plus: |a, b| a + b,
        minus: |a, b| a - b,
        times: |a, b| a * b,
        max: f32::max,
        inv_count: |n| 1.0 / n as f32,
        inv_sqrt: |a| 1.0 / a.sqrt(),
    }
}

fn apply(op: &Op, args: &[&Tensor]) -> Tensor {
    match op {
        Op::MatMul => {
            let (a, b) = (args[0], args[1]);
            assert_eq!((a.shape.len(), b.shape.len()), (2, 2));
            let (m, k, n) = (a.shape[0], a.shape[1], b.shape[1]);
            assert_eq!(k, b.shape[0]);
            tensor(&[m, n], matmul(&a.data, &b.data, m, k, n))
        }
        Op::AddBias => {
            assert_eq!(args[1].shape, vec![*args[0].shape.last().unwrap()]);
            broadcast(args[0], args[1], |x, y| x + y)
        }
        Op::Bmm => {
            let (a, b) = (args[0], args[1]);
            let (bs, m, k, n) = (a.shape[0], a.shape[1], a.shape[2], b.shape[2]);
            assert_eq!((b.shape[0], b.shape[1]), (bs, k));
            let mut data = Vec::new();
            for i in 0..bs {
                data.extend(matmul(
                    &a.data[i * m * k..(i + 1) * m * k],
                    &b.data[i * k * n..(i + 1) * k * n],
                    m,
                    k,
                    n,
                ));
            }
            tensor(&[bs, m, n], data)
        }
        Op::Add => broadcast(args[0], args[1], |x, y| x + y),
        Op::Sub => broadcast(args[0], args[1], |x, y| x - y),
        Op::Mul => broadcast(args[0], args[1], |x, y| x * y),
        Op::Div => broadcast(args[0], args[1], |x, y| x / y),
        Op::Sqrt => map(args[0], f32::sqrt),
        Op::Relu => map(args[0], |v| v.max(0.0)),
        Op::Sigmoid => map(args[0], |v| 1.0 / (1.0 + (-v).exp())),
        Op::Tanh => map(args[0], f32::tanh),
        Op::Softmax(axis) => {
            let a = args[0];
            assert_eq!(*axis + 1, a.shape.len());
            let w = a.shape[*axis];
            let mut data = a.data.clone();
            for row in data.chunks_mut(w) {
                let top = row.iter().copied().fold(f32::NEG_INFINITY, f32::max);
                let sum: f32 = row.iter().map(|v| (v - top).exp()).sum();
                for v in row.iter_mut() {
                    *v = (*v - top).exp() / sum;
                }
            }
            tensor(&a.shape, data)
        }
        Op::MeanDim(axis) => {
            let a = args[0];
            assert_eq!(*axis + 1, a.shape.len());
            let w = a.shape[*axis];
            let data = a.data.chunks(w).map(|r| r.iter().sum::<f32>() / w as f32).collect();
            let mut shape = a.shape.clone();
            shape[*axis] = 1;
            tensor(&shape, data)
        }
        Op::Transpose(i, j) => {
            let a = args[0];
            let mut shape = a.shape.clone();
            shape.swap(*i, *j);
            let (si, so) = (strides(&a.shape), strides(&shape));
            let data = (0..a.data.len())
                .map(|flat| {
                    let mut idx: Vec<usize> =
                        (0..shape.len()).map(|d| flat / so[d] % shape[d]).collect();
                    idx.swap(*i, *j);
                    a.data[idx.iter().zip(&si).map(|(x, s)| x * s).sum::<usize>()]
                })
                .collect();
            tensor(&shape, data)
        }
        Op::Reshape(s) => tensor(s, args[0].data.clone()),
        Op::Detach(s) => tensor(s, detach(s, Some(args[0].data.clone())).unwrap()),
        Op::Tile(n) => {
            let data = tile_bank(Some(&args[0].data[..]), *n).unwrap();
            tensor(&[data.len()], data)
        }
        Op::InvSqrt(n) => tensor(&[], vec![1.0 / (*n as f32).sqrt()]),
        Op::Count(n) => tensor(&[], vec![*n as f32]),
        Op::Constant(bits) => tensor(&[], vec![f32::from_bits(*bits)]),
        Op::FusedLayerNorm(eps) => {
            let (x, g, b) = (args[0], args[1], args[2]);
            let eps = f32::from_bits(*eps);
            let y = layer_norm_forward_f32_fused(&arith(), &x.shape, &x.data, &g.data, &b.data, eps);
            tensor(&x.shape, y)
        }
        Op::FusedRmsNorm(eps) => {
            let (x, g) = (args[0], args[1]);
            let eps = f32::from_bits(*eps);
            let y = rms_norm_forward_f32_fused(&arith(), &x.shape, &x.data, &g.data, eps);
            tensor(&x.shape, y)
        }
        Op::Conv2d { pad_h, pad_w } => {
            let (x, w) = (args[0], args[1]);
            let (n, c, h, wd) = (x.shape[0], x.shape[1], x.shape[2], x.shape[3]);
            let (o, kh, kw) = (w.shape[0], w.shape[2], w.shape[3]);
            assert_eq!(c, w.shape[1]);
            let (oh, ow) = (h + 2 * pad_h + 1 - kh, wd + 2 * pad_w + 1 - kw);
            let mut data = Vec::new();
            for b in 0..n {
                for f in 0..o {
                    for y in 0..oh {
                        for z in 0..ow {
                            let mut s = if args.len() == 3 { args[2].data[f] } else { 0.0 };
                            for ch in 0..c {
                                for i in 0..kh {
                                    for j in 0..kw {
                                        let (yy, zz) = (y + i, z + j);
                                        if yy < *pad_h || zz < *pad_w {
                                            continue;
                                        }
                                        let (yy, zz) = (yy - pad_h, zz - pad_w);
                                        if yy >= h || zz >= wd {
                                            continue;
                                        }
                                        s += x.data[((b * c + ch) * h + yy) * wd + zz]
                                            * w.data[((f * c + ch) * kh + i) * kw + j];
                                    }
                                }
                            }
                            data.push(s);
                        }
                    }
                }
            }
            tensor(&[n, o, oh, ow], data)
        }
        Op::MaxPool2d { kernel, stride } => {
            let x = args[0];
            let (n, c, h, w) = (x.shape[0], x.shape[1], x.shape[2], x.shape[3]);
            let (oh, ow) = ((h - kernel.0) / stride.0 + 1, (w - kernel.1) / stride.1 + 1);
            let mut data = Vec::new();
            for b in 0..n * c {
                for y in 0..oh {
                    for z in 0..ow {
                        let mut top = f32::NEG_INFINITY;
                        for i in 0..kernel.0 {
                            for j in 0..kernel.1 {
                                let at = (b * h + y * stride.0 + i) * w + z * stride.1 + j;
                                top = top.max(x.data[at]);
                            }
                        }
                        data.push(top);
                    }
                }
            }
            tensor(&[n, c, oh, ow], data)
        }
        Op::BatchNorm2d(eps) => {
            let (x, g, b) = (args[0], args[1], args[2]);
            let (n, c) = (x.shape[0], x.shape[1]);
            let area = x.shape[2] * x.shape[3];
            let mut data = x.data.clone();
            for ch in 0..c {
                let at = |i: usize, p: usize| (i * c + ch) * area + p;
                let vals: Vec<f32> = (0..n)
                    .flat_map(|i| (0..area).map(move |p| (i, p)))
                    .map(|(i, p)| x.data[at(i, p)])
                    .collect();
                let count = vals.len() as f32;
                let mean = vals.iter().sum::<f32>() / count;
                let var = vals.iter().map(|v| (v - mean).powi(2)).sum::<f32>() / count;
                let inv = 1.0 / (var + f32::from_bits(*eps)).sqrt();
                for i in 0..n {
                    for p in 0..area {
                        data[at(i, p)] = (x.data[at(i, p)] - mean) * inv * g.data[ch] + b.data[ch];
                    }
                }
            }
            tensor(&x.shape, data)
        }
        Op::IndexSelect => {
            let (table, idx) = (args[0], args[1]);
            let w = table.shape[1];
            let mut data = Vec::new();
            for i in &idx.data {
                let r = *i as usize;
                data.extend_from_slice(&table.data[r * w..(r + 1) * w]);
            }
            tensor(&[idx.data.len(), w], data)
        }
    }
}

fn run(p: &Program, inputs: &[Tensor]) -> Tensor {
    assert_eq!(p.inputs, inputs.len());
    let mut values: Vec<Tensor> = inputs.to_vec();
    for step in &p.steps {
        let args: Vec<&Tensor> = step.args.iter().map(|&i| &values[i]).collect();
        let out = apply(&step.op, &args);
        values.push(out);
    }
    values[p.result].clone()
}

fn gain_of(g: Gain) -> f32 {
    match g {
        Gain::Ratio(n, d) => n as f32 / d as f32,
        Gain::SqrtRatio(n, d) => (n as f32 / d as f32).sqrt(),
        Gain::Leaky(bits) => {
            let slope = f32::from_bits(bits);
            (2.0 / (1.0 + slope * slope)).sqrt()
        }
    }
}

fn normal(rng: &mut StdRng, mean: f32, std: f32) -> f32 {
    let u1: f32 = rng.gen_range(1e-7_f32..1.0);
    let u2: f32 = rng.gen::<f32>();
    mean + std * ((-2.0 * u1.ln()).sqrt() * (2.0 * std::f32::consts::PI * u2).cos())
}

fn spread_of(s: Spread) -> f32 {
    match s {
        Spread::Root { num, den } => (num as f32 / den as f32).sqrt(),
        Spread::Times { gain, num, den } => gain_of(gain) * (num as f32 / den as f32).sqrt(),
        Spread::Over { gain, den } => gain_of(gain) / (den as f32).sqrt(),
    }
}

fn draw(init: Init, shape: &[usize], seed: u64) -> Vec<f32> {
    let sampler = Sampler {
        seeded: StdRng::seed_from_u64,
        whole: |v: u32| v as f32,
        of_bits: f32::from_bits,
        spread: spread_of,
        negated: |x: f32| -x,
        uniform: |mut rng: StdRng, a: f32, b: f32| (rng.gen_range(a..b), rng),
        normal: |mut rng: StdRng, mean: f32, std: f32| (normal(&mut rng, mean, std), rng),
    };
    init_with_seed(init, shape, seed, &sampler)
}

fn filled(p: &Parameter) -> Tensor {
    let n = p.numel();
    let data = match &p.values {
        Values::Zeros => vec![0.0; n],
        Values::Ones => vec![1.0; n],
        Values::Noise { draws, fan } => {
            let bound = 1.0 / (*fan as f32).sqrt();
            draws
                .iter()
                .map(|&u| (u as f32 / u32::MAX as f32 * 2.0 - 1.0) * bound)
                .collect()
        }
        Values::Seeded { init, seed } => draw(*init, &p.shape, *seed),
    };
    tensor(&p.shape, data)
}

fn with_params<M: Module>(m: &M, x: &Tensor) -> Vec<Tensor> {
    let mut inputs = vec![x.clone()];
    inputs.extend(m.parameters().iter().map(filled));
    inputs
}

const TRACKED: InputState = InputState { tracking: true, dtype: Dtype::F32, contiguous: true };
const UNTRACKED: InputState = InputState { tracking: false, ..TRACKED };

fn forward<M: Module>(m: &M, x: &Tensor) -> Result<Tensor, ModuleError> {
    forward_in(m, x, &TRACKED)
}

fn forward_in<M: Module>(m: &M, x: &Tensor, state: &InputState) -> Result<Tensor, ModuleError> {
    assert!(m.takes(&x.shape));
    let p = Module::forward(m, &x.shape, state)?;
    Ok(run(&p, &with_params(m, x)))
}

fn both<M: Module>(m: &M, x: &Tensor) -> (Tensor, Tensor) {
    (forward_in(m, x, &TRACKED).unwrap(), forward_in(m, x, &UNTRACKED).unwrap())
}

fn names<M: Module>(m: &M) -> Vec<String> {
    m.named_parameters().into_iter().map(|(n, _)| n).collect()
}

fn self_attention(m: &MultiHeadAttention, x: &Tensor, mask: Option<&AdditiveMask>) -> Tensor {
    let p = m.self_attention(&x.shape, mask.is_some()).unwrap();
    let mut inputs = vec![x.clone()];
    if let Some(k) = mask {
        inputs.push(mask_tensor(k));
    }
    inputs.extend(m.parameters().iter().map(filled));
    run(&p, &inputs)
}

fn mask_tensor(m: &AdditiveMask) -> Tensor {
    tensor(&m.shape, m.values.iter().map(|&v| v as f32).collect())
}

fn bits(v: f32) -> u32 {
    v.to_bits()
}

fn mean_std(data: &[f32]) -> (f32, f32) {
    let n = data.len() as f32;
    let mean = data.iter().sum::<f32>() / n;
    let var = data.iter().map(|v| (v - mean).powi(2)).sum::<f32>() / n;
    (mean, var.sqrt())
}

// ---- affine layers ----

#[test]
fn linear_rank2_preserves_legacy_shape() {
    let layer = Linear::new(4, 3);
    let y = forward(&layer, &ramp(&[2, 4], 0.1)).unwrap();
    assert_eq!(y.shape, &[2, 3]);
}

#[test]
fn linear_rank3_btd_input() {
    let layer = Linear::new(4, 5);
    let y = forward(&layer, &ramp(&[2, 3, 4], 0.01)).unwrap();
    assert_eq!(y.shape, &[2, 3, 5]);
}

#[test]
fn linear_rank4_bhtd_input() {
    let layer = Linear::new(4, 6);
    let y = forward(&layer, &ramp(&[2, 2, 3, 4], 0.005)).unwrap();
    assert_eq!(y.shape, &[2, 2, 3, 6]);
}

#[test]
fn linear_rank3_matches_flatten_reference() {
    let layer = Linear::new(3, 2);
    let y3 = forward(&layer, &ramp(&[2, 4, 3], 0.1)).unwrap();
    let y2 = forward(&layer, &ramp(&[8, 3], 0.1)).unwrap();
    assert_eq!(y3.data.len(), y2.data.len());
    for (a, b) in y3.data.iter().zip(y2.data.iter()) {
        assert!((a - b).abs() < 1e-6, "mismatch: {} vs {}", a, b);
    }
}

#[test]
fn linear_rejects_rank1_input() {
    let layer = Linear::new(3, 2);
    let e = Module::forward(&layer, &[3], &TRACKED).unwrap_err();
    assert_eq!(e.op, "Linear::forward");
    assert_eq!(e.message, "input rank must be >= 2, got shape [3]");
}

#[test]
fn linear_rejects_wrong_last_dim() {
    let layer = Linear::new(4, 2);
    let e = Module::forward(&layer, &[2, 3, 5], &TRACKED).unwrap_err();
    assert_eq!(e.message, "last dim 5 != in_features 4");
}

#[test]
fn linear_computes_x_times_weight_plus_bias() {
    let layer = Linear::new(2, 1);
    let w = filled(&layer.weight);
    let y = forward(&layer, &tensor(&[1, 2], vec![3.0, -5.0])).unwrap();
    assert_eq!(y.data, vec![3.0 * w.data[0] + -5.0 * w.data[1]]);
    let bound = 1.0 / 2.0_f32.sqrt();
    assert!(w.data.iter().all(|v| v.abs() <= bound));
    assert_eq!(Linear::no_bias(2, 1).parameters().len(), 1);
    assert_eq!((layer.in_features(), layer.out_features()), (2, 1));
}

#[test]
fn noise_is_a_fixed_sequence() {
    let mult: u64 = 6_364_136_223_846_793_005;
    for i in [0u64, 1, 2, 77, 100_000] {
        let mut s = i.wrapping_mul(mult).wrapping_add(1);
        s = s.wrapping_mul(mult).wrapping_add(1);
        assert_eq!(noise_draw(i), (s >> 32) as u32);
    }
}

#[test]
fn bilinear_sums_the_products() {
    let layer = Bilinear::new(3, 4);
    assert_eq!((layer.in1_features(), layer.in2_features()), (3, 4));
    let (x1, x2) = (ramp(&[2, 3], 0.1), ramp(&[2, 4], 0.2));
    let w = filled(&layer.weight);
    let bias = tensor(&[1], vec![0.25]);
    let y = run(&layer.forward2(2), &[x1.clone(), x2.clone(), w.clone(), bias]);
    assert_eq!(y.shape, &[2, 1]);
    for b in 0..2 {
        let mut s = 0.25;
        for i in 0..3 {
            for j in 0..4 {
                s += x1.data[b * 3 + i] * w.data[i * 4 + j] * x2.data[b * 4 + j];
            }
        }
        assert!((y.data[b] - s).abs() < 1e-5);
    }
}

// ---- casts ----

#[test]
fn linear_to_bf16_round_trip() {
    let mut layer = Linear::new(4, 3);
    assert!(layer.parameters().iter().all(|p| p.dtype == Dtype::F32));
    layer.to_bf16();
    assert!(layer.parameters().iter().all(|p| p.dtype == Dtype::BF16));
    layer.to_f32();
    assert!(layer.parameters().iter().all(|p| p.dtype == Dtype::F32));
    layer.to_f16();
    assert!(layer.parameters().iter().all(|p| p.dtype == Dtype::F16));
}

#[test]
fn casts_are_remembered_in_order() {
    let mut layer = Linear::new(2, 2);
    layer.to_f32();
    assert!(layer.weight.casts.is_empty());
    layer.to_bf16();
    layer.to_bf16();
    layer.to_f32();
    assert_eq!(layer.weight.casts, vec![Dtype::BF16, Dtype::F32]);
    assert_eq!(layer.parameters()[1].casts, vec![Dtype::BF16, Dtype::F32]);
}

#[test]
fn to_dtype_is_noop_when_already_target() {
    let mut layer = Linear::new(2, 2);
    let before: Vec<Vec<f32>> = layer.parameters().iter().map(|p| filled(p).data).collect();
    layer.to_dtype(Dtype::F32);
    let after: Vec<Vec<f32>> = layer.parameters().iter().map(|p| filled(p).data).collect();
    assert_eq!(before, after);
}

// ---- attention ----

#[test]
fn sdp_attention_uniform_input_uniform_output() {
    let c = tensor(&[1, 3, 2], vec![1.0; 6]);
    let p = scaled_dot_product_attention(&c.shape).unwrap();
    let out = run(&p, &[c.clone(), c.clone(), c]);
    assert_eq!(out.shape, &[1, 3, 2]);
    for &x in &out.data {
        assert!((x - 1.0).abs() < 1e-5);
    }
}

#[test]
fn sdp_attention_shape_preserved() {
    let q = ramp(&[2, 4, 3], 0.1);
    let k = tensor(&[2, 4, 3], (0..24).map(|i| (i as f32 + 1.0) * 0.05).collect());
    let v = tensor(&[2, 4, 3], (0..24).map(|i| (i as f32 + 5.0) * 0.02).collect());
    let p = scaled_dot_product_attention(&q.shape).unwrap();
    assert_eq!(run(&p, &[q, k, v]).shape, &[2, 4, 3]);
}

#[test]
fn sdp_attention_refuses_other_ranks() {
    assert!(scaled_dot_product_attention(&[3, 2]).is_err());
    assert!(scaled_dot_product_attention(&[1, 1, 3, 2]).is_err());
}

#[test]
fn single_head_attention_b1_shape_correct() {
    let attn = SingleHeadAttention::new(4);
    let out = forward(&attn, &ramp(&[1, 5, 4], 0.1)).unwrap();
    assert_eq!(out.shape, &[1, 5, 4]);
    assert_eq!(attn.parameters().len(), 8);
}

#[test]
fn single_head_attention_refuses_batches() {
    let attn = SingleHeadAttention::new(4);
    assert!(Module::forward(&attn, &[2, 5, 4], &TRACKED).is_err());
    assert!(Module::forward(&attn, &[5, 4], &TRACKED).is_err());
}

#[test]
fn single_head_attention_named_parameters() {
    let names = names(&SingleHeadAttention::new(2));
    assert!(names.contains(&"q_proj.weight".to_string()));
    assert!(names.contains(&"q_proj.bias".to_string()));
    assert!(names.contains(&"o_proj.weight".to_string()));
}

#[test]
fn multihead_attention_output_shape_and_params() {
    let mha = MultiHeadAttention::new(8, 4);
    let out = self_attention(&mha, &ramp(&[2, 5, 8], 0.01), None);
    assert_eq!(out.shape, &[2, 5, 8]);
    assert_eq!(mha.parameters().len(), 8);
    assert_eq!(mha.head_dim(), 2);
    assert_eq!((mha.embed_dim(), mha.num_heads()), (8, 4));
}

#[test]
fn multihead_num_heads_1_constant_input_constant_output() {
    let mha = MultiHeadAttention::new(4, 1);
    let s = self_attention(&mha, &tensor(&[1, 3, 4], vec![1.0; 12]), None).data;
    for r in 1..3 {
        for c in 0..4 {
            assert!((s[r * 4 + c] - s[c]).abs() < 1e-4, "row {r} col {c} differs");
        }
    }
}

#[test]
fn multihead_causal_mask_restricts_first_row() {
    let mha = MultiHeadAttention::new(4, 2);
    let mask = causal_mask(3);
    let out = self_attention(&mha, &tensor(&[1, 3, 4], vec![1.0; 12]), Some(&mask));
    assert_eq!(out.shape, &[1, 3, 4]);
    for &v in &out.data[0..4] {
        assert!(v.is_finite(), "row 0 has non-finite value: {v}");
    }
}

#[test]
fn causal_mask_hides_later_positions_from_the_first_row() {
    let mha = MultiHeadAttention::new(4, 2);
    let mask = causal_mask(3);
    let a = ramp(&[1, 3, 4], 0.1);
    let mut b = a.clone();
    for v in &mut b.data[4..] {
        *v += 7.0;
    }
    let ya = self_attention(&mha, &a, Some(&mask));
    let yb = self_attention(&mha, &b, Some(&mask));
    for c in 0..4 {
        assert!((ya.data[c] - yb.data[c]).abs() < 1e-5);
    }
    assert!((ya.data[8] - yb.data[8]).abs() > 1e-3);
}

#[test]
fn cross_attention_between_lengths_and_masks_per_head() {
    let mha = MultiHeadAttention::new(4, 2);
    let q = ramp(&[2, 3, 4], 0.1);
    let kv = ramp(&[2, 5, 4], 0.2);
    for shape in [vec![3usize, 5], vec![1, 3, 5], vec![4, 3, 5]] {
        let p = mha.forward(&q.shape, &kv.shape, &kv.shape, true).unwrap();
        let n: usize = shape.iter().product();
        let mut inputs = vec![q.clone(), kv.clone(), kv.clone(), tensor(&shape, vec![0.0; n])];
        inputs.extend(mha.parameters().iter().map(filled));
        assert_eq!(run(&p, &inputs).shape, &[2, 3, 4]);
    }
}

#[test]
fn multihead_rejects_wrong_embed_dim() {
    let mha = MultiHeadAttention::new(4, 2);
    assert!(mha.self_attention(&[1, 3, 8], false).is_err());
}

#[test]
fn multihead_named_parameters_distinct_projections() {
    let names = names(&MultiHeadAttention::new(4, 2));
    for prefix in ["q_proj", "k_proj", "v_proj", "o_proj"] {
        let weight = format!("{prefix}.weight");
        assert!(names.contains(&weight), "missing {weight}");
    }
}

#[test]
fn single_head_attention_reads_single_precision_only() {
    let attn = SingleHeadAttention::new(2);
    let half = InputState { dtype: Dtype::BF16, ..TRACKED };
    let e = Module::forward(&attn, &[1, 3, 2], &half).unwrap_err();
    assert_eq!((e.op, e.message.as_str()), ("reshape_for_linear", "expected contiguous F32"));
    let gaps = InputState { contiguous: false, ..TRACKED };
    assert!(Module::forward(&attn, &[1, 3, 2], &gaps).is_ok());
    let rank = Module::forward(&attn, &[3, 2], &half).unwrap_err();
    assert_eq!((rank.op, rank.message.as_str()), (
        "single_head_attention",
        "expected rank-3 input, got [3, 2]",
    ));
    assert_eq!(Module::forward(&attn, &[2, 3, 2], &half).unwrap_err().op, "single_head_attention");
    let features = Module::forward(&attn, &[1, 3, 5], &half).unwrap_err();
    assert_eq!(features.op, "reshape_for_linear");
    let features = Module::forward(&attn, &[1, 3, 5], &TRACKED).unwrap_err();
    assert_eq!(features.message, "last dim 5 != in_features 2");
}

#[test]
fn detached_copies_need_readable_elements() {
    assert_eq!(detach(&[1, 2], Some(vec![7, 8])).unwrap(), vec![7, 8]);
    let flat = detach::<u8>(&[1, 2], None).unwrap_err();
    assert_eq!((flat.op, flat.message.as_str()), ("reshape_for_linear", "expected contiguous F32"));
    let full = detach::<u8>(&[1, 1, 2], None).unwrap_err();
    assert_eq!((full.op, full.message.as_str()), ("unsqueeze_batch", "expected contiguous F32"));
}

// ---- normalisation ----

#[test]
fn rms_norm_unit_input_returns_unit_output() {
    let norm = RMSNorm::with_eps(4, bits(0.0));
    let y = forward(&norm, &tensor(&[1, 4], vec![1.0; 4])).unwrap();
    for &v in &y.data {
        assert!((v - 1.0).abs() < 1e-5, "got {v}");
    }
}

#[test]
fn rms_norm_preserves_shape() {
    let norm = RMSNorm::new(8);
    let y = forward(&norm, &tensor(&[3, 5, 8], vec![0.5; 120])).unwrap();
    assert_eq!(y.shape, &[3, 5, 8]);
}

#[test]
fn rms_norm_gamma_scales_output_uniformly() {
    let norm = RMSNorm::with_eps(4, bits(0.0));
    let x = tensor(&[1, 4], vec![1.0; 4]);
    let p = Module::forward(&norm, &x.shape, &TRACKED).unwrap();
    let y = run(&p, &[x, tensor(&[4], vec![3.0; 4])]);
    for &v in &y.data {
        assert!((v - 3.0).abs() < 1e-5, "got {v}");
    }
}

#[test]
fn rms_norm_parameters_returns_gamma_only() {
    let p = RMSNorm::new(8).parameters();
    assert_eq!(p.len(), 1);
    assert_eq!(p[0].shape, &[8]);
}

#[test]
fn layer_norm_zero_input_returns_beta() {
    let norm = LayerNorm::with_eps(4, bits(1e-5));
    let y = forward(&norm, &tensor(&[1, 4], vec![0.0; 4])).unwrap();
    for &v in &y.data {
        assert!(v.abs() < 1e-5, "expected ~0 (beta=0), got {v}");
    }
}

#[test]
fn layer_norm_centers_and_unit_variance() {
    let norm = LayerNorm::with_eps(4, bits(0.0));
    let y = forward(&norm, &tensor(&[1, 4], vec![1.0, 2.0, 3.0, 4.0])).unwrap();
    let (mean, std) = mean_std(&y.data);
    assert!(mean.abs() < 1e-5, "mean ≈ 0, got {mean}");
    assert!((std * std - 1.0).abs() < 1e-4, "var ≈ 1, got {}", std * std);
}

#[test]
fn layer_norm_preserves_shape() {
    let norm = LayerNorm::new(8);
    let y = forward(&norm, &tensor(&[3, 5, 8], vec![0.5; 120])).unwrap();
    assert_eq!(y.shape, &[3, 5, 8]);
}

#[test]
fn layer_norm_parameters_count() {
    let p = LayerNorm::new(8).parameters();
    assert_eq!(p.len(), 2);
    assert_eq!(p[0].shape, &[8]);
    assert_eq!(p[1].shape, &[8]);
}

#[test]
fn batch_norm2d_normalises_per_channel() {
    let bn = BatchNorm2d::new(2);
    let y = forward(&bn, &ramp(&[2, 2, 2, 2], 1.0)).unwrap();
    assert_eq!(y.shape, &[2, 2, 2, 2]);
}

#[test]
fn batch_norm2d_named_parameters() {
    let bn = BatchNorm2d::new(8);
    assert_eq!(names(&bn), vec!["gamma".to_string(), "beta".to_string()]);
    assert_eq!(bn.num_features(), 8);
}

#[test]
fn default_epsilons_are_what_their_bits_say() {
    assert_eq!(RMSNorm::new(2).eps, bits(1e-6));
    assert_eq!(LayerNorm::new(2).eps, bits(1e-5));
    assert_eq!(BatchNorm2d::new(2).eps, bits(1e-5));
}

#[test]
fn norm_path_follows_tracking_dtype_layout_and_shape() {
    let norm = LayerNorm::new(4);
    let rms = RMSNorm::new(4);
    let fits = UNTRACKED;
    let op = |p: Program| p.steps.into_iter().next().unwrap();
    let plan = |shape: &[usize], s: &InputState| op(norm.forward(shape, s).unwrap());
    let rms_plan = |shape: &[usize], s: &InputState| op(rms.forward(shape, s).unwrap());
    let fused = plan(&[3, 4], &fits);
    assert!(matches!(fused.op, Op::FusedLayerNorm(e) if e == bits(1e-5)));
    assert_eq!(fused.args, vec![0, 1, 2]);
    let fused = rms_plan(&[4], &fits);
    assert!(matches!(fused.op, Op::FusedRmsNorm(e) if e == bits(1e-6)));
    assert_eq!(fused.args, vec![0, 1]);
    let others = [
        InputState { tracking: true, ..fits },
        InputState { dtype: Dtype::BF16, ..fits },
        InputState { contiguous: false, ..fits },
    ];
    for s in &others {
        assert!(matches!(plan(&[3, 4], s).op, Op::MeanDim(1)));
        assert!(matches!(rms_plan(&[3, 4], s).op, Op::Mul));
    }
    assert!(matches!(plan(&[4, 3], &fits).op, Op::MeanDim(1)));
    let mut cast = LayerNorm::new(4);
    cast.to_bf16();
    assert!(matches!(op(cast.forward(&[3, 4], &fits).unwrap()).op, Op::MeanDim(1)));
}

#[test]
fn norm_layers_agree_with_and_without_tracking() {
    let x = tensor(&[5, 4], wave(20));
    let pairs = [
        both(&LayerNorm::new(4), &x),
        both(&RMSNorm::new(4), &x),
    ];
    for (a, b) in pairs {
        assert_eq!(a.shape, b.shape);
        for (u, v) in a.data.iter().zip(&b.data) {
            assert!((u - v).abs() < 1e-4, "{u} vs {v}");
        }
    }
}

#[test]
fn pooling_takes_the_fused_norms_when_nothing_is_tracked() {
    let pool = CrossAttentionPool::new(8, 4, 2);
    let x = tensor(&[2, 5, 8], wave(80));
    let p = Module::forward(&pool, &x.shape, &UNTRACKED).unwrap();
    assert!(matches!(p.steps[0].op, Op::FusedRmsNorm(_)));
    assert!(matches!(p.steps[1].op, Op::FusedRmsNorm(_)));
    assert_eq!((p.steps[0].args[0], p.steps[1].args[0]), (1, 0));
    let (a, b) = both(&pool, &x);
    assert_eq!(a.shape, &[2, 4, 8]);
    for (u, v) in a.data.iter().zip(&b.data) {
        assert!((u - v).abs() < 1e-4, "{u} vs {v}");
    }
}

fn wave(n: usize) -> Vec<f32> {
    (0..n).map(|i| ((i * 37 % 101) as f32 - 50.0) * 0.03).collect()
}

#[test]
fn fused_layer_norm_agrees_with_composed_program() {
    let eps = 1e-5_f32;
    for outer in [1usize, 5, 63, 64, 70] {
        let d = 6;
        let x = tensor(&[outer, d], wave(outer * d));
        let gamma: Vec<f32> = (0..d).map(|i| 1.0 + i as f32 * 0.1).collect();
        let beta: Vec<f32> = (0..d).map(|i| i as f32 * 0.2 - 0.5).collect();
        let fused = layer_norm_forward_f32_fused(&arith(), &x.shape, &x.data, &gamma, &beta, eps);
        let norm = LayerNorm::with_eps(d, bits(eps));
        let p = Module::forward(&norm, &x.shape, &TRACKED).unwrap();
        let composed = run(&p, &[x.clone(), tensor(&[d], gamma.clone()), tensor(&[d], beta)]);
        assert_eq!(fused.len(), composed.data.len());
        for (a, b) in fused.iter().zip(&composed.data) {
            assert!((a - b).abs() < 1e-4, "{a} vs {b}");
        }
    }
}

#[test]
fn fused_rms_norm_agrees_with_composed_program_and_with_its_tasks() {
    let eps = 1e-6_f32;
    let d = 4;
    let outer = 66;
    let x = tensor(&[outer, d], wave(outer * d));
    let gamma: Vec<f32> = (0..d).map(|i| 0.5 + i as f32).collect();
    let fused = rms_norm_forward_f32_fused(&arith(), &x.shape, &x.data, &gamma, eps);
    let norm = RMSNorm::with_eps(d, bits(eps));
    let p = Module::forward(&norm, &x.shape, &TRACKED).unwrap();
    let composed = run(&p, &[x.clone(), tensor(&[d], gamma.clone())]);
    for (a, b) in fused.iter().zip(&composed.data) {
        assert!((a - b).abs() < 1e-4, "{a} vs {b}");
    }
    let mut chunks: Vec<(usize, Vec<f32>)> = row_tasks(outer)
        .into_iter()
        .rev()
        .map(|(lo, hi)| {
            let rows = &x.data[lo * d..hi * d];
            (lo, rms_norm_forward_f32_fused(&arith(), &[hi - lo, d], rows, &gamma, eps))
        })
        .collect();
    chunks.sort_by_key(|c| c.0);
    let joined: Vec<f32> = chunks.into_iter().flat_map(|c| c.1).collect();
    assert_eq!(joined, fused);
}

#[test]
fn fused_norms_give_exact_values() {
    let twice = layer_norm_forward_f32_fused(
        &arith(),
        &[2, 2],
        &[1.0, 3.0, -2.0, 2.0],
        &[1.0, 2.0],
        &[0.5, -0.5],
        0.0,
    );
    assert_eq!(twice, vec![-0.5, 1.5, -0.5, 1.5]);
    let rms = rms_norm_forward_f32_fused(&arith(), &[1, 4], &[2.0; 4], &[1.0, 2.0, 3.0, 4.0], 0.0);
    assert_eq!(rms, vec![1.0, 2.0, 3.0, 4.0]);
    let eps = rms_norm_forward_f32_fused(&arith(), &[2], &[1.0, 1.0], &[1.0, 1.0], 3.0);
    assert_eq!(eps, vec![0.5, 0.5]);
}

#[test]
fn norm_of_joined_inputs_is_the_norms_joined() {
    let d = 6;
    let (x1, x2) = (wave(40 * d), wave(30 * d).into_iter().map(|v| v * 2.0).collect::<Vec<_>>());
    let gamma: Vec<f32> = (0..d).map(|i| 1.0 + i as f32 * 0.1).collect();
    let beta: Vec<f32> = (0..d).map(|i| i as f32 * 0.2).collect();
    let layer = |n: usize, x: &[f32]| {
        layer_norm_forward_f32_fused(&arith(), &[n, d], x, &gamma, &beta, 1e-5)
    };
    let rms = |n: usize, x: &[f32]| rms_norm_forward_f32_fused(&arith(), &[n, d], x, &gamma, 1e-6);
    let all = [x1.clone(), x2.clone()].concat();
    assert_eq!(layer(70, &all), [layer(40, &x1), layer(30, &x2)].concat());
    assert_eq!(rms(70, &all), [rms(40, &x1), rms(30, &x2)].concat());
}

#[test]
fn row_tasks_bundle_from_sixty_four_rows_on() {
    assert_eq!(row_tasks(0), vec![]);
    assert_eq!(row_tasks(3), vec![(0, 1), (1, 2), (2, 3)]);
    assert_eq!(row_tasks(63).len(), 63);
    assert_eq!(row_tasks(64), vec![(0, 16), (16, 32), (32, 48), (48, 64)]);
    assert_eq!(row_tasks(65).last(), Some(&(64, 65)));
}

// ---- convolution and pooling ----

#[test]
fn conv2d_shape_3x3_no_padding() {
    let conv = Conv2d::new(1, 2, 3);
    let y = forward(&conv, &ramp(&[1, 1, 5, 5], 1.0)).unwrap();
    assert_eq!(y.shape, &[1, 2, 3, 3]);
}

#[test]
fn conv2d_padding_preserves_spatial_dims() {
    let conv = Conv2d::with_padding(3, 4, (3, 3), (1, 1));
    let y = forward(&conv, &tensor(&[2, 3, 8, 8], vec![0.5; 2 * 3 * 8 * 8])).unwrap();
    assert_eq!(y.shape, &[2, 4, 8, 8]);
}

#[test]
fn conv2d_no_bias_only_one_param() {
    let conv = Conv2d::new(2, 3, 1).no_bias();
    assert_eq!(conv.parameters().len(), 1);
    let np = conv.named_parameters();
    assert_eq!(np.len(), 1);
    assert_eq!(np[0].0, "weight");
}

#[test]
fn conv2d_named_parameters() {
    let conv = Conv2d::new(3, 8, 3);
    let names = names(&conv);
    assert!(names.contains(&"weight".to_string()));
    assert!(names.contains(&"bias".to_string()));
    assert_eq!((conv.in_channels(), conv.out_channels(), conv.kernel_size()), (3, 8, (3, 3)));
}

#[test]
fn maxpool2d_2x2_halves_spatial() {
    let y = forward(&MaxPool2d::new(2), &ramp(&[1, 1, 4, 4], 1.0)).unwrap();
    assert_eq!(y.shape, &[1, 1, 2, 2]);
    assert_eq!(y.data, vec![5.0, 7.0, 13.0, 15.0]);
}

#[test]
fn maxpool2d_with_stride_overlaps() {
    let pool = MaxPool2d::with_stride((2, 2), (1, 1));
    let y = forward(&pool, &ramp(&[1, 1, 3, 3], 1.0)).unwrap();
    assert_eq!(y.shape, &[1, 1, 2, 2]);
    assert_eq!(y.data, vec![4.0, 5.0, 7.0, 8.0]);
}

#[test]
fn conv2d_then_maxpool_chains_correctly() {
    let conv = Conv2d::new(1, 2, 3);
    let pool = MaxPool2d::new(2);
    let h = forward(&conv, &tensor(&[1, 1, 6, 6], vec![1.0; 36])).unwrap();
    assert_eq!(h.shape, &[1, 2, 4, 4]);
    let y = forward(&pool, &h).unwrap();
    assert_eq!(y.shape, &[1, 2, 2, 2]);
}

#[test]
fn conv1d_shapes_and_errors() {
    let conv = Conv1d::new(2, 3, 4);
    assert_eq!(forward(&conv, &ramp(&[1, 2, 9], 0.1)).unwrap().shape, &[1, 3, 6]);
    let padded = Conv1d::with_padding(2, 3, 3, 1).no_bias();
    assert_eq!(forward(&padded, &ramp(&[2, 2, 7], 0.1)).unwrap().shape, &[2, 3, 7]);
    assert_eq!(padded.parameters().len(), 1);
    assert_eq!(padded.kernel_size(), 3);
    let e = Module::forward(&conv, &[2, 9], &TRACKED).unwrap_err();
    assert_eq!(e.op, "conv1d");
    assert_eq!(e.message, "expected rank-3 input [N, C, L], got [2, 9]");
}

// ---- embedding ----

#[test]
fn embedding_lookup_returns_correct_rows() {
    let e = Embedding::new(5, 3);
    let known: Vec<f32> = (0..5)
        .flat_map(|r| (0..3).map(move |c| r as f32 + c as f32 * 0.1))
        .collect();
    let idx = tensor(&[3], vec![1.0, 3.0, 0.0]);
    let out = run(&e.forward_indices(), &[idx, tensor(&[5, 3], known.clone())]);
    assert_eq!(out.shape, &[3, 3]);
    let expected: Vec<f32> = [&known[3..6], &known[9..12], &known[0..3]].concat();
    assert_eq!(out.data, expected);
}

#[test]
fn embedding_module_forward_via_variable() {
    let e = Embedding::new(10, 4);
    let idx = tensor(&[5], vec![0.0, 1.0, 2.0, 3.0, 4.0]);
    assert_eq!(forward(&e, &idx).unwrap().shape, &[5, 4]);
}

#[test]
fn embedding_parameters_returns_weight() {
    let e = Embedding::new(8, 3);
    let p = e.parameters();
    assert_eq!(p.len(), 1);
    assert_eq!(p[0].shape, &[8, 3]);
    let np = e.named_parameters();
    assert_eq!(np.len(), 1);
    assert_eq!(np[0].0, "weight");
    assert_eq!((e.vocab_size(), e.embed_dim()), (8, 3));
}

#[test]
fn embedding_init_is_normal() {
    let e = Embedding::with_seed(100, 50, 0);
    let (mean, std) = mean_std(&filled(&e.weight).data);
    assert!(mean.abs() < 0.1, "init mean ≈ 0, got {mean}");
    assert!((std - 1.0).abs() < 0.1, "init std ≈ 1, got {std}");
}

// ---- pooling by attention ----

#[test]
fn cross_attention_pool_output_shape() {
    let pool = CrossAttentionPool::new(8, 4, 2);
    let out = forward(&pool, &ramp(&[2, 5, 8], 0.01)).unwrap();
    assert_eq!(out.shape, &[2, 4, 8]);
}

#[test]
fn cross_attention_pool_rejects_rank2_input() {
    let pool = CrossAttentionPool::new(4, 2, 2);
    let e = Module::forward(&pool, &[5, 4], &TRACKED).unwrap_err();
    assert_eq!(e.op, "CrossAttentionPool::forward");
    assert_eq!(e.message, "expected rank-3 input [B, T, D], got [5, 4]");
}

#[test]
fn cross_attention_pool_rejects_wrong_dim() {
    let pool = CrossAttentionPool::new(4, 2, 2);
    let e = Module::forward(&pool, &[1, 3, 8], &TRACKED).unwrap_err();
    assert_eq!(e.message, "input dim 8 != configured dim 4");
}

#[test]
fn cross_attention_pool_named_parameters_complete() {
    let names = names(&CrossAttentionPool::new(4, 2, 2));
    assert!(names.contains(&"query".to_string()));
    assert!(names.contains(&"mha.q_proj.weight".to_string()));
    assert!(names.contains(&"mha.o_proj.bias".to_string()));
    assert!(names.contains(&"query_norm.gamma".to_string()));
    assert!(names.contains(&"kv_norm.gamma".to_string()));
    assert_eq!(names.len(), 11);
}

#[test]
fn tiles_repeat_the_query_bank() {
    assert_eq!(tile_queries(&[1, 2, 3], 2), vec![1, 2, 3, 1, 2, 3]);
    assert_eq!(tile_queries(&[1, 2], 0), Vec::<i32>::new());
    assert_eq!(tile_queries::<u8>(&[], 4), Vec::<u8>::new());
}

#[test]
fn a_query_bank_that_cannot_be_read_is_refused() {
    assert_eq!(tile_bank(Some(&[1, 2, 3]), 2).unwrap(), vec![1, 2, 3, 1, 2, 3]);
    let e = tile_bank::<f32>(None, 2).unwrap_err();
    assert_eq!(e.op, "tile_queries");
    assert_eq!(e.message, "expected contiguous F32 query bank");
}

#[test]
fn a_new_pool_is_filled_like_its_parts() {
    let pool = CrossAttentionPool::new(4, 3, 2);
    let fresh = MultiHeadAttention::new(4, 2);
    for (a, b) in pool.mha.parameters().iter().zip(&fresh.parameters()) {
        assert_eq!(filled(a).data, filled(b).data);
        assert_eq!((a.dtype, a.casts.len()), (Dtype::F32, 0));
    }
    assert_eq!(pool.mha.dropout, 0);
    assert_eq!((pool.query_norm.normalized_size, pool.kv_norm.normalized_size), (4, 4));
}

#[test]
fn pooled_slots_are_the_same_for_equal_batch_entries() {
    let pool = CrossAttentionPool::new(4, 2, 2);
    let one: Vec<f32> = (0..12).map(|i| i as f32 * 0.1).collect();
    let x = tensor(&[2, 3, 4], [one.clone(), one].concat());
    let y = forward(&pool, &x).unwrap();
    for i in 0..8 {
        assert!((y.data[i] - y.data[8 + i]).abs() < 1e-6);
    }
}

// ---- activations ----

#[test]
fn activations_compute_element_wise() {
    let x = tensor(&[3], vec![-1.0, 0.0, 1.0]);
    assert_eq!(forward(&Relu, &x).unwrap().data, vec![0.0, 0.0, 1.0]);
    assert_eq!(forward(&Sigmoid, &x).unwrap().data[1], 0.5);
    assert_eq!(forward(&Tanh, &x).unwrap().data[2], 1.0_f32.tanh());
    assert_eq!(Relu.parameters().len() + Sigmoid.parameters().len(), 0);
}

#[test]
fn functional_activations_chain() {
    let mut p = Program::start(1);
    let a = relu(&mut p, 0);
    let b = sigmoid(&mut p, a);
    let c = tanh(&mut p, b);
    assert_eq!((a, b, c), (1, 2, 3));
    let y = run(&p, &[tensor(&[1], vec![-4.0])]);
    assert_eq!(y.data, vec![0.5_f32.tanh()]);
}

// ---- checkpointing ----

#[test]
fn checkpointed_linear_forward_matches_uncheckpointed() {
    let x = tensor(&[2, 3], vec![1.0, 2.0, 3.0, 4.0, 5.0, 6.0]);
    let plain = forward(&Linear::new(3, 2), &x).unwrap();
    let ckpt = Checkpointed::new(Linear::new(3, 2));
    assert_eq!(forward(&ckpt, &x).unwrap().data, plain.data);
    assert_eq!(ckpt.inner().in_features(), 3);
}

#[test]
fn checkpointed_named_params_are_prefixed() {
    for name in names(&Checkpointed::new(Linear::new(2, 2))) {
        assert!(name.starts_with("ckpt."), "expected ckpt. prefix, got {name}");
    }
}

// ---- containers ----

#[test]
fn module_list_collects_params_across_children() {
    let list = ModuleList::new()
        .push(Layer::Linear(Linear::new(4, 4)))
        .push(Layer::Relu(Relu))
        .push(Layer::Linear(Linear::new(4, 2)));
    assert_eq!(list.parameters().len(), 4);
    assert_eq!(list.len(), 3);
    assert_eq!(names(&list), vec!["0", "1", "2", "3"]);
    assert_eq!(list.iter().len(), 3);
}

#[test]
fn module_list_fold_chains_forward() {
    let list = ModuleList::new()
        .push(Layer::Linear(Linear::new(3, 3)))
        .push(Layer::Relu(Relu))
        .push(Layer::Linear(Linear::new(3, 2)));
    let x = tensor(&[1, 3], vec![1.0, 2.0, 3.0]);
    let y = list
        .fold(
            x.clone(),
            |t: &Tensor| (t.shape.clone(), TRACKED),
            |m: &Layer, p: &Program, t: Tensor| Ok(run(p, &with_params(m, &t))),
        )
        .unwrap();
    assert_eq!(y.shape, &[1, 2]);
    let h = forward(&Linear::new(3, 3), &x).unwrap();
    let h = forward(&Relu, &h).unwrap();
    assert_eq!(y.data, forward(&Linear::new(3, 2), &h).unwrap().data);
}

#[test]
fn module_list_fold_stops_at_the_first_refusal() {
    let list = ModuleList::new()
        .push(Layer::Linear(Linear::new(3, 3)))
        .push(Layer::Linear(Linear::new(4, 2)))
        .push(Layer::Relu(Relu));
    let ran = Cell::new(0);
    let e = list
        .fold(
            tensor(&[1, 3], vec![1.0, 2.0, 3.0]),
            |t: &Tensor| (t.shape.clone(), TRACKED),
            |m: &Layer, p: &Program, t: Tensor| {
                ran.set(ran.get() + 1);
                Ok(run(p, &with_params(m, &t)))
            },
        )
        .unwrap_err();
    assert_eq!(e.message, "last dim 3 != in_features 4");
    assert_eq!(ran.get(), 1);
}

#[test]
fn module_list_fold_runs_each_layer_once_with_its_own_parameters() {
    let scaled = |v: f32| {
        let mut l = Linear::no_bias(1, 1);
        l.weight.values = Values::Seeded { init: Init::Constant(bits(v)), seed: 0 };
        Layer::Linear(l)
    };
    let list = ModuleList::new().push(scaled(3.0)).push(scaled(-2.0)).push(Layer::Relu(Relu));
    let seen = RefCell::new(Vec::new());
    let y = list
        .fold(
            tensor(&[1, 1], vec![5.0]),
            |t: &Tensor| (t.shape.clone(), UNTRACKED),
            |m: &Layer, p: &Program, t: Tensor| {
                seen.borrow_mut().push(t.data[0]);
                Ok(run(p, &with_params(m, &t)))
            },
        )
        .unwrap();
    assert_eq!(*seen.borrow(), vec![5.0, 15.0, -30.0]);
    assert_eq!(y.data, vec![0.0]);
}

#[test]
fn checked_fold_stops_where_a_layer_takes_nothing() {
    let look = |t: &Tensor| (t.shape.clone(), TRACKED);
    let pass = |m: &Layer, p: &Program, t: Tensor| Ok(run(p, &with_params(m, &t)));
    let list = ModuleList::new().push(Layer::Relu(Relu)).push(Layer::RMSNorm(RMSNorm::new(2)));
    assert!(list.fold_checked(tensor(&[], vec![1.0]), look, pass).is_none());
    let y = list.fold_checked(tensor(&[1, 2], vec![-1.0, 1.0]), look, pass);
    assert_eq!(y.unwrap().unwrap().shape, &[1, 2]);
}

#[test]
fn layers_say_which_shapes_they_take() {
    let huge = usize::MAX;
    let linear = Linear::new(2, 3);
    assert!(linear.takes(&[5, 6, 2]) && linear.takes(&[huge, huge, 7]) && linear.takes(&[2]));
    assert!(!linear.takes(&[huge, 2, 2]));
    assert!(!RMSNorm::new(2).takes(&[]) && LayerNorm::new(2).takes(&[2]));
    let mut mha = MultiHeadAttention::new(4, 2);
    assert!(mha.takes(&[2, 3, 4]) && !mha.takes(&[huge, 3, 4]) && mha.takes(&[huge, 3, 5]));
    mha.head_dim = 3;
    assert!(!mha.takes(&[2, 3, 4]));
    let conv = Conv1d::new(1, 1, 3);
    assert!(conv.takes(&[1, 1, 9]) && !conv.takes(&[1, 1, huge]) && conv.takes(&[huge]));
    let pool = CrossAttentionPool::new(4, 2, 2);
    assert!(pool.takes(&[2, 3, 4]) && !pool.takes(&[huge, 3, 4]) && pool.takes(&[7]));
}

#[test]
fn module_list_get_by_index() {
    let list = ModuleList::new()
        .push(Layer::Linear(Linear::new(2, 2)))
        .push(Layer::Relu(Relu));
    assert!(list.get(0).is_some());
    assert!(list.get(1).is_some());
    assert!(list.get(2).is_none());
}

#[test]
fn module_list_forward_hands_the_input_back() {
    let list = ModuleList::new().push(Layer::Linear(Linear::new(2, 2)));
    let x = tensor(&[3], vec![1.0, 2.0, 3.0]);
    assert_eq!(forward(&list, &x).unwrap().data, x.data);
}

#[test]
fn module_dict_keys_in_insertion_order() {
    let dict = ModuleDict::new()
        .insert("encoder", Linear::new(8, 4))
        .insert("decoder", Linear::new(4, 8))
        .insert("head", Linear::new(8, 2));
    assert_eq!(dict.keys(), vec!["encoder", "decoder", "head"]);
}

#[test]
fn module_dict_get_returns_named_child() {
    let dict = ModuleDict::new()
        .insert("layer1", Layer::Linear(Linear::new(4, 4)))
        .insert("act", Layer::Relu(Relu));
    assert!(dict.get("layer1").is_some());
    assert!(dict.get("missing").is_none());
}

#[test]
fn module_dict_parameters_count() {
    let dict = ModuleDict::new()
        .insert("a", Linear::new(2, 3))
        .insert("b", Linear::new(3, 1));
    assert_eq!(dict.parameters().len(), 4);
}

#[test]
fn module_dict_reinsertion_replaces_in_place() {
    let dict = ModuleDict::new()
        .insert("a", Linear::new(2, 3))
        .insert("b", Linear::new(3, 1))
        .insert("a", Linear::new(5, 6));
    assert_eq!(dict.keys(), vec!["a", "b"]);
    assert_eq!(dict.len(), 2);
    assert_eq!(dict.get("a").unwrap().in_features(), 5);
    assert_eq!(dict.parameters()[0].shape, &[5, 6]);
}

#[test]
fn empty_containers_are_empty() {
    let l: ModuleList<Layer> = ModuleList::default();
    let d: ModuleDict<Layer> = ModuleDict::default();
    assert!(l.is_empty());
    assert!(d.is_empty());
    assert_eq!(l.parameters().len(), 0);
    assert_eq!(d.parameters().len(), 0);
}

#[test]
fn containers_cast_all_children() {
    let mut l = ModuleList::new()
        .push(Layer::Linear(Linear::new(2, 2)))
        .push(Layer::RMSNorm(RMSNorm::new(2)));
    l.to_bf16();
    l.train();
    l.eval();
    assert_eq!(l.parameters().len(), 3);
    assert!(l.parameters().iter().all(|p| p.dtype == Dtype::BF16));
}

// ---- hooks ----

type Trace = Vec<u32>;
type Pre = Box<dyn Fn(&Tensor, Trace) -> Trace>;
type Post = Box<dyn Fn(&Tensor, &Tensor, Trace) -> Trace>;

fn noted(mut trace: Trace, mark: u32) -> Trace {
    trace.push(mark);
    trace
}

/// The output and what was called in which order; the layer leaves a zero.
fn observed<M: Module>(m: &HookedModule<M, Pre, Post>, x: &Tensor) -> (Tensor, Trace) {
    let run = |inner: &M, t: &Tensor, trace: Trace| (forward(inner, t), noted(trace, 0));
    let (y, trace) = m.observe(x, vec![], run);
    (y.unwrap(), trace)
}

#[test]
fn pre_hook_observes_input() {
    let mut model: HookedModule<Linear, Pre, Post> = HookedModule::new(Linear::new(2, 2));
    model.add_forward_pre_hook(Box::new(|x: &Tensor, t: Trace| {
        assert_eq!(x.shape, &[1, 2]);
        noted(t, 1)
    }));
    let (_, trace) = observed(&model, &tensor(&[1, 2], vec![1.0, 2.0]));
    assert_eq!(trace.iter().filter(|&&m| m == 1).count(), 1);
}

#[test]
fn post_hook_observes_input_output() {
    let mut model: HookedModule<Linear, Pre, Post> = HookedModule::new(Linear::new(3, 4));
    model.add_forward_hook(Box::new(|x: &Tensor, y: &Tensor, t: Trace| {
        assert_eq!(x.shape, &[1, 3]);
        assert_eq!(y.shape, &[1, 4]);
        noted(t, 1)
    }));
    let (_, trace) = observed(&model, &tensor(&[1, 3], vec![0.1; 3]));
    assert_eq!(trace.iter().filter(|&&m| m == 1).count(), 1);
}

#[test]
fn multiple_hooks_called_in_order() {
    let mut model: HookedModule<Relu, Pre, Post> = HookedModule::new(Relu);
    model.add_forward_pre_hook(Box::new(|_: &Tensor, t: Trace| noted(t, 1)));
    model.add_forward_pre_hook(Box::new(|_: &Tensor, t: Trace| noted(t, 2)));
    let (_, trace) = observed(&model, &tensor(&[3], vec![-1.0, 0.0, 1.0]));
    let order: Vec<u32> = trace.into_iter().filter(|&m| m != 0).collect();
    assert_eq!(order, vec![1, 2]);
}

#[test]
fn the_layer_runs_once_between_its_observers() {
    let mut model: HookedModule<Relu, Pre, Post> = HookedModule::new(Relu);
    model.add_forward_hook(Box::new(|_: &Tensor, _: &Tensor, t: Trace| noted(t, 3)));
    model.add_forward_pre_hook(Box::new(|_: &Tensor, t: Trace| noted(t, 1)));
    model.add_forward_hook(Box::new(|x: &Tensor, y: &Tensor, t: Trace| {
        assert_eq!((x.data[0], y.data[0]), (-1.0, 0.0));
        noted(t, 4)
    }));
    model.add_forward_pre_hook(Box::new(|_: &Tensor, t: Trace| noted(t, 2)));
    let (y, trace) = observed(&model, &tensor(&[1], vec![-1.0]));
    assert_eq!(trace, vec![1, 2, 0, 3, 4]);
    assert_eq!(y.data, vec![0.0]);
}

#[test]
fn remove_hook_unregisters() {
    let mut model: HookedModule<Relu, Pre, Post> = HookedModule::new(Relu);
    let h = model.add_forward_pre_hook(Box::new(|_: &Tensor, t: Trace| noted(t, 1)));
    let x = tensor(&[1], vec![1.0]);
    let (_, trace) = observed(&model, &x);
    assert_eq!(trace, vec![1, 0]);
    assert!(model.remove_hook(h));
    let (_, trace) = observed(&model, &x);
    assert_eq!(trace, vec![0], "hook should not fire after removal");
    assert!(!model.remove_hook(h));
}

#[test]
fn no_hooks_means_passthrough() {
    let model: HookedModule<Linear, Pre, Post> = HookedModule::new(Linear::new(2, 2));
    let (y, _) = observed(&model, &tensor(&[1, 2], vec![0.5, -0.5]));
    assert_eq!(y.shape, &[1, 2]);
    assert_eq!(model.n_pre_hooks(), 0);
    assert_eq!(model.n_post_hooks(), 0);
}

#[test]
fn hooks_dont_break_parameters() {
    let mut model: HookedModule<Linear, Pre, Post> = HookedModule::new(Linear::new(3, 2));
    model.add_forward_pre_hook(Box::new(|_: &Tensor, t: Trace| t));
    model.add_forward_hook(Box::new(|_: &Tensor, _: &Tensor, t: Trace| t));
    assert_eq!(model.parameters().len(), 2);
    assert_eq!(model.named_parameters().len(), 2);
    assert_eq!(model.inner().out_features(), 2);
}

#[test]
fn post_hooks_stay_silent_when_the_pass_fails() {
    let mut model: HookedModule<Relu, Pre, Post> = HookedModule::new(Relu);
    model.add_forward_pre_hook(Box::new(|_: &Tensor, t: Trace| noted(t, 1)));
    model.add_forward_hook(Box::new(|_: &Tensor, _: &Tensor, t: Trace| noted(t, 10)));
    let fail = |_: &Relu, _: &Tensor, t: Trace| (Err::<Tensor, u8>(7), noted(t, 5));
    let (r, trace) = model.observe(&tensor(&[1], vec![1.0]), vec![], fail);
    assert_eq!(r.unwrap_err(), 7);
    assert_eq!(trace, vec![1, 5]);
}

#[test]
fn handles_are_unique_and_removal_moves_the_last_hook() {
    let mut m: HookedModule<Relu, u8, u8> = HookedModule::new(Relu);
    let a = m.add_forward_pre_hook(10);
    let b = m.add_forward_hook(20);
    let c = m.add_forward_pre_hook(30);
    let d = m.add_forward_pre_hook(40);
    assert_eq!((a.id, b.id, c.id, d.id), (0, 1, 2, 3));
    assert!(m.remove_hook(a));
    let pre = |id: usize| HookHandle { id, kind: HookKind::Pre };
    assert_eq!(m.fired(false), vec![pre(3), pre(2)]);
    assert_eq!(m.fired(true), vec![pre(3), pre(2), b]);
    assert!(!m.remove_hook(HookHandle { id: 1, kind: HookKind::Pre }));
    assert_eq!(m.add_forward_hook(50).id, 4);
}

// ---- initialisation ----

#[test]
fn zeros_and_ones_constants() {
    assert!(draw(Init::Zeros, &[4, 4], 0).iter().all(|&v| v == 0.0));
    assert!(draw(Init::Ones, &[4, 4], 0).iter().all(|&v| v == 1.0));
    assert!(draw(Init::Constant(bits(0.42)), &[3], 0).iter().all(|&v| v == 0.42));
}

#[test]
fn uniform_in_range() {
    let v = draw(Init::Uniform { a: bits(-2.0), b: bits(5.0) }, &[1000], 42);
    assert!(v.iter().all(|&x| (-2.0..5.0).contains(&x)));
}

#[test]
fn normal_stats_within_tolerance() {
    let v = draw(Init::Normal { mean: bits(0.0), std: bits(1.0) }, &[10_000], 7);
    let (m, s) = mean_std(&v);
    assert!(m.abs() < 0.1, "mean ≈ 0, got {m}");
    assert!((s - 1.0).abs() < 0.1, "std ≈ 1, got {s}");
}

#[test]
fn fan_calculation_2d() {
    assert_eq!(calculate_fan(&[3, 4]), (3, 4));
}

#[test]
fn fan_calculation_conv() {
    assert_eq!(calculate_fan(&[64, 3, 3, 3]), (3 * 3 * 3, 64 * 3 * 3));
}

#[test]
fn fan_calculation_1d_bias() {
    assert_eq!(calculate_fan(&[10]), (10, 10));
}

#[test]
fn fan_calculation_of_empty_shapes() {
    assert_eq!(calculate_fan(&[]), (1, 1));
    assert_eq!(calculate_fan(&[0]), (1, 1));
    assert_eq!(calculate_fan(&[3, 64, 3, 3]), (64 * 9, 3 * 9));
}

#[test]
fn nonlinearity_gain_values() {
    assert!((gain_of(Nonlinearity::Linear.gain()) - 1.0).abs() < 1e-7);
    assert!((gain_of(Nonlinearity::Tanh.gain()) - 5.0 / 3.0).abs() < 1e-7);
    assert!((gain_of(Nonlinearity::Relu.gain()) - 2.0_f32.sqrt()).abs() < 1e-7);
    let g = gain_of(Nonlinearity::LeakyRelu(bits(0.1)).gain());
    let expected = (2.0_f32 / 1.01_f32).sqrt();
    assert!((g - expected).abs() < 1e-6);
}

#[test]
fn xavier_uniform_bound_matches_formula() {
    let v = draw(Init::XavierUniform, &[3, 5], 42);
    let bound = (6.0_f32 / 8.0).sqrt();
    assert!(v.iter().all(|&x| x.abs() < bound + 1e-5));
    let (n, what) = plan_draws(Init::XavierUniform, &[3, 5]);
    assert_eq!(n, 15);
    assert_eq!(what, Draw::Within(Spread::Root { num: 6, den: 8 }));
    let (_, what) = plan_draws(Init::XavierNormal, &[3, 5]);
    assert_eq!(what, Draw::Around(Spread::Root { num: 2, den: 8 }));
}

#[test]
fn kaiming_normal_std_scales_with_fan() {
    let init = Init::KaimingNormal { mode: FanMode::FanIn, nonlinearity: Nonlinearity::Relu };
    let (_, s) = mean_std(&draw(init, &[100, 200], 42));
    let expected = (2.0_f32 / 100.0).sqrt();
    assert!((s - expected).abs() / expected < 0.1, "got std {s}, expected {expected}");
}

#[test]
fn kaiming_uniform_looks_at_the_chosen_fan() {
    let relu = Nonlinearity::Relu;
    let uniform = |mode: FanMode| Init::KaimingUniform { mode, nonlinearity: relu };
    let gain = Gain::SqrtRatio(2, 1);
    let (_, fan_in) = plan_draws(uniform(FanMode::FanIn), &[8, 3, 5]);
    assert_eq!(fan_in, Draw::Within(Spread::Times { gain, num: 3, den: 15 }));
    let (_, fan_out) = plan_draws(uniform(FanMode::FanOut), &[8, 3, 5]);
    assert_eq!(fan_out, Draw::Within(Spread::Times { gain, num: 3, den: 40 }));
    let normal = Init::KaimingNormal { mode: FanMode::FanOut, nonlinearity: relu };
    let (_, what) = plan_draws(normal, &[8, 3, 5]);
    assert_eq!(what, Draw::Around(Spread::Over { gain, den: 40 }));
}

#[test]
fn elements_are_drawn_in_order_from_one_generator() {
    let counter = Sampler {
        seeded: |seed: u64| seed,
        whole: |v: u32| v as u64,
        of_bits: |v: u32| v as u64,
        spread: |_: Spread| 100u64,
        negated: |x: u64| 1000 - x,
        uniform: |g: u64, a: u64, b: u64| (a * 10_000 + b * 10 + g, g + 1),
        normal: |g: u64, mean: u64, std: u64| (mean + std * g, g + 2),
    };
    let uniform = init_with_seed(Init::Uniform { a: 1, b: 2 }, &[3], 5, &counter);
    assert_eq!(uniform, vec![10_025, 10_026, 10_027]);
    let bounded = init_with_seed(Init::XavierUniform, &[1, 2], 0, &counter);
    assert_eq!(bounded, vec![9_001_000, 9_001_001]);
    let normal = init_with_seed(Init::Normal { mean: 7, std: 10 }, &[2, 2], 1, &counter);
    assert_eq!(normal, vec![17, 37, 57, 77]);
    assert_eq!(init_with_seed(Init::XavierNormal, &[2, 1], 3, &counter), vec![300, 500]);
    assert_eq!(init_with_seed(Init::Ones, &[2, 2], 3, &counter), vec![1, 1, 1, 1]);
    assert_eq!(init_with_seed(Init::Constant(9), &[0, 2], 3, &counter), Vec::<u64>::new());
}

#[test]
fn seeded_init_is_reproducible() {
    let init = Init::KaimingUniform { mode: FanMode::FanIn, nonlinearity: Nonlinearity::Relu };
    assert_eq!(draw(init, &[10, 10], 1234), draw(init, &[10, 10], 1234));
}

// ---- masks ----

#[test]
fn causal_mask_4_is_lower_triangular() {
    let m = causal_mask(4);
    for i in 0..4 {
        for j in 0..4 {
            let expected = if j <= i { 0 } else { MASK_NEG };
            assert_eq!(m.values[i * 4 + j], expected, "at ({i},{j})");
        }
    }
    assert_eq!(MASK_NEG as f32, -1.0e4);
}

#[test]
fn sliding_window_8_3_truth_table() {
    let m = sliding_window_mask(8, 3);
    for i in 0..8usize {
        for j in 0..8usize {
            let lo = i.saturating_sub(2);
            let expected = if j >= lo && j <= i { 0 } else { MASK_NEG };
            assert_eq!(m.values[i * 8 + j], expected, "at ({i},{j})");
        }
    }
}

#[test]
fn sliding_window_full_equals_causal() {
    assert_eq!(sliding_window_mask(5, 100).values, causal_mask(5).values);
}

#[test]
fn causal_mask_zeroes_softmax_above_diagonal() {
    let len = 3;
    let mut p = Program::start(2);
    let masked = p.emit2(Op::Add, 0, 1);
    p.emit1(Op::Softmax(1), masked);
    let scores = tensor(&[len, len], vec![0.0; len * len]);
    let v = run(&p, &[scores, mask_tensor(&causal_mask(len))]).data;
    assert!((v[0] - 1.0).abs() < 1e-3);
    assert!(v[1].abs() < 1e-3);
    assert!(v[2].abs() < 1e-3);
    for j in 0..len {
        assert!((v[2 * len + j] - 1.0 / len as f32).abs() < 1e-3);
    }
}

#[test]
fn bool_to_additive_round_trip() {
    let data: Vec<u32> = [1.0_f32, 0.0, 1.0, 1.0].iter().map(|v| v.to_bits()).collect();
    let m = bool_to_additive(&[2, 2], &data);
    assert_eq!(m.shape, &[2, 2]);
    assert_eq!(m.values, vec![0, MASK_NEG, 0, 0]);
}

#[test]
fn bool_to_additive_compares_with_one_half() {
    let all = [0.5_f32, 0.49999997, -1.0, -0.0, f32::INFINITY, f32::NAN, f32::NEG_INFINITY, 3.0];
    let data: Vec<u32> = all.iter().map(|v| v.to_bits()).collect();
    let expected: Vec<i32> = all.iter().map(|&v| if v >= 0.5 { 0 } else { MASK_NEG }).collect();
    assert_eq!(bool_to_additive(&[8], &data).values, expected);
}

#[test]
fn sliding_window_1_is_diagonal() {
    let m = sliding_window_mask(4, 1);
    for i in 0..4 {
        for j in 0..4 {
            assert_eq!(m.values[i * 4 + j], if i == j { 0 } else { MASK_NEG });
        }
    }
}

// ---- losses ----

fn loss(call: &LossCall, pred: &[f32], target: &[f32]) -> f32 {
    let reduce = |v: Vec<f32>, r: Reduction| match r {
        Reduction::Mean => v.iter().sum::<f32>() / v.len() as f32,
        Reduction::Sum => v.iter().sum(),
        Reduction::Each => v[0],
    };
    match call {
        LossCall::Mse(r) => {
            reduce(pred.iter().zip(target).map(|(a, b)| (a - b).powi(2)).collect(), *r)
        }
        LossCall::CrossEntropy(r) => {
            let classes = pred.len() / target.len();
            let rows = target
                .iter()
                .enumerate()
                .map(|(i, &t)| {
                    let row = &pred[i * classes..(i + 1) * classes];
                    let sum: f32 = row.iter().map(|v| v.exp()).sum();
                    sum.ln() - row[t as usize]
                })
                .collect();
            reduce(rows, *r)
        }
        LossCall::Ctc { .. } => unreachable!(),
    }
}

#[test]
fn mse_default_is_mean() {
    let call = MseLoss::default().forward();
    assert!(matches!(call, LossCall::Mse(Reduction::Mean)));
    let v = loss(&call, &[1.0, 2.0, 3.0, 4.0], &[1.0, 2.0, 3.0, 4.0]);
    assert!(v.abs() < 1e-7, "perfect prediction → loss 0, got {v}");
}

#[test]
fn mse_reduction_sum() {
    let call = MseLoss::new(Reduction::Sum).forward();
    assert!((loss(&call, &[0.0, 0.0, 0.0], &[1.0, 2.0, 3.0]) - 14.0).abs() < 1e-5);
}

#[test]
fn cross_entropy_perfect_prediction_low_loss() {
    let call = CrossEntropyLoss::default().forward();
    let v = loss(&call, &[10.0, -10.0], &[0.0]);
    assert!(v < 1e-3, "very confident correct → near-zero loss, got {v}");
    let sum = CrossEntropyLoss::new(Reduction::Sum).forward();
    assert!(matches!(sum, LossCall::CrossEntropy(Reduction::Sum)));
}

#[test]
fn ctc_loss_carries_lengths_and_reports_failures() {
    let ctc = CTCLoss::new(vec![5, 6], vec![2, 3], Reduction::Sum);
    match ctc.forward() {
        LossCall::Ctc { input_lens, target_lens, reduction } => {
            assert_eq!(input_lens, vec![5, 6]);
            assert_eq!(target_lens, vec![2, 3]);
            assert_eq!(reduction, Reduction::Sum);
        }
        other => panic!("{other:?}"),
    }
    let e = CTCLoss::failure("too short".to_string());
    assert_eq!((e.op, e.message.as_str()), ("ctc_loss", "too short"));
}
