//! Normalisation layers.
use crate::nn::init;
use crate::nn::meaning;
use crate::nn::meaning::Num;
use crate::nn::module;
use crate::nn::module::{ErrorView, InputState, Module, ModuleError};
use crate::nn::param::{Dtype, ParamModel, Parameter};
use crate::nn::program;
use crate::nn::program::{Dense, Op, OpModel, ProgModel, Program};
use vstd::prelude::*;

verus! {

/// The bits of the default epsilon `1e-6` of root-mean-square normalisation.
pub const RMS_EPS: u32 = 0x3586_37bd;

/// The bits of the default epsilon `1e-5` of the other layers.
pub const NORM_EPS: u32 = 0x3727_c5ac;

/// A dense single-precision input whose last axis has `size` entries, and
/// nobody tracks gradients.
pub open spec fn input_fits(shape: Seq<usize>, state: InputState, size: usize) -> bool {
    &&& !state.tracking
    &&& state.dtype == Dtype::F32
    &&& state.contiguous
    &&& shape.len() >= 1
    &&& shape.last() == size
}

/// A single-precision parameter of `size` elements.
pub open spec fn param_fits(p: ParamModel, size: usize) -> bool {
    p.dtype == Dtype::F32 && init::product(p.shape) == size
}

fn check_input(shape: &[usize], state: &InputState, size: usize) -> (r: bool)
    ensures
        r == input_fits(shape@, *state, size),
{
    !state.tracking && state.dtype == Dtype::F32 && state.contiguous && shape.len() >= 1
        && shape[shape.len() - 1] == size
}

fn check_param(p: &Parameter, size: usize) -> (r: bool)
    requires
        init::products_fit(p@.shape),
    ensures
        r == param_fits(p@, size),
{
    p.dtype == Dtype::F32 && p.numel() == size
}

/// The steps of root-mean-square normalisation along axis `last`:
/// `x / sqrt(mean(x * x) + eps) * gamma`.
pub open spec fn emit_rms(p: ProgModel, x: nat, gamma: nat, eps: u32, last: nat) -> ProgModel {
    let sq = p.emit(OpModel::Mul, seq![x, x]);
    let mean = sq.emit(OpModel::MeanDim(last), seq![sq.result]);
    let e = mean.emit(OpModel::Constant(eps), seq![]);
    let sum = e.emit(OpModel::Add, seq![mean.result, e.result]);
    let rms = sum.emit(OpModel::Sqrt, seq![sum.result]);
    let normed = rms.emit(OpModel::Div, seq![x, rms.result]);
    normed.emit(OpModel::Mul, seq![normed.result, gamma])
}

/// Shape of root-mean-square normalisation inside a program.
pub proof fn lemma_rms_shape(
    p: ProgModel,
    env: Seq<Seq<usize>>,
    e: Seq<Seq<usize>>,
    x: nat,
    gamma: nat,
    eps: u32,
    shape: Seq<usize>,
) -> (f: Seq<Seq<usize>>)
    requires
        p.shapes(env) == Some(e),
        shape.len() >= 1,
        x < e.len() && e[x as int] == shape,
        gamma < e.len() && e[gamma as int] == seq![shape.last()],
    ensures
        ({
            let q = emit_rms(p, x, gamma, eps, (shape.len() - 1) as nat);
            &&& q.shapes(env) == Some(f)
            &&& q.result < f.len()
            &&& f[q.result as int] == shape
            &&& program::extends(f, e)
            &&& q.inputs == p.inputs
        }),
{
    let last = (shape.len() - 1) as nat;
    let m = shape.update(last as int, 1);
    program::lemma_infer_len(p.steps, env);
    program::lemma_broadcasts(shape);
    program::lemma_broadcasts(m);
    program::lemma_emit2(p, env, e, OpModel::Mul, x, x, shape);
    let sq = p.emit(OpModel::Mul, seq![x, x]);
    let e1 = e.push(shape);
    program::lemma_emit1(sq, env, e1, OpModel::MeanDim(last), sq.result, m);
    let mean = sq.emit(OpModel::MeanDim(last), seq![sq.result]);
    let e2 = e1.push(m);
    program::lemma_emit0(mean, env, e2, OpModel::Constant(eps), seq![]);
    let c = mean.emit(OpModel::Constant(eps), seq![]);
    let e3 = e2.push(seq![]);
    program::lemma_emit2(c, env, e3, OpModel::Add, mean.result, c.result, m);
    let sum = c.emit(OpModel::Add, seq![mean.result, c.result]);
    let e4 = e3.push(m);
    program::lemma_emit1(sum, env, e4, OpModel::Sqrt, sum.result, m);
    let rms = sum.emit(OpModel::Sqrt, seq![sum.result]);
    let e5 = e4.push(m);
    program::lemma_emit2(rms, env, e5, OpModel::Div, x, rms.result, shape);
    let normed = rms.emit(OpModel::Div, seq![x, rms.result]);
    let e6 = e5.push(shape);
    program::lemma_emit2(normed, env, e6, OpModel::Mul, normed.result, gamma, shape);
    e6.push(shape)
}

/// `y = x / sqrt(mean(x * x) + eps) * gamma` over the last axis.
#[derive(Debug)]
pub struct RMSNorm {
    /// `[normalized_size]`.
    pub gamma: Parameter,
    /// The bits of the epsilon.
    pub eps: u32,
    pub normalized_size: usize,
}

impl RMSNorm {
    /// A layer with scale one and the default epsilon.
    pub fn new(normalized_size: usize) -> (r: Self)
        ensures
            r.gamma@ == ParamModel::ones(normalized_size),
            r.eps == RMS_EPS,
            r.normalized_size == normalized_size,
    {
        Self::with_eps(normalized_size, RMS_EPS)
    }

    /// A layer with scale one and an epsilon given by its bits.
    pub fn with_eps(normalized_size: usize, eps: u32) -> (r: Self)
        ensures
            r.gamma@ == ParamModel::ones(normalized_size),
            r.eps == eps,
            r.normalized_size == normalized_size,
    {
        RMSNorm { gamma: Parameter::ones(normalized_size), eps, normalized_size }
    }

    /// Size of the last axis.
    pub fn normalized_size(&self) -> (r: usize)
        ensures
            r == self.normalized_size,
    {
        self.normalized_size
    }

    /// The fused kernel is taken.
    pub open spec fn fuses(self, shape: Seq<usize>, state: InputState) -> bool {
        input_fits(shape, state, self.normalized_size) && param_fits(
            self.gamma@,
            self.normalized_size,
        )
    }

    /// The steps on a value of the given shape and state: the fused kernel
    /// where it can be taken, and otherwise the composed steps.
    pub open spec fn run(
        self,
        p: ProgModel,
        x: nat,
        gamma: nat,
        shape: Seq<usize>,
        state: InputState,
    ) -> ProgModel {
        if self.fuses(shape, state) {
            p.emit(OpModel::FusedRmsNorm(self.eps), seq![x, gamma])
        } else {
            emit_rms(p, x, gamma, self.eps, (shape.len() - 1) as nat)
        }
    }

    /// Emits the layer on value `x` of the given rank; the scale is value
    /// `first`.
    fn emit(&self, p: &mut Program, x: usize, first: usize, rank: usize) -> (r: usize)
        requires
            rank >= 1,
            old(p)@.next() + 7 <= usize::MAX,
        ensures
            final(p)@ == emit_rms(old(p)@, x as nat, first as nat, self.eps, (rank - 1) as nat),
            r == final(p)@.result,
    {
        let sq: usize = p.emit2(Op::Mul, x, x);
        let mean: usize = p.emit1(Op::MeanDim(rank - 1), sq);
        let e: usize = p.emit0(Op::Constant(self.eps));
        let sum: usize = p.emit2(Op::Add, mean, e);
        let rms: usize = p.emit1(Op::Sqrt, sum);
        let normed: usize = p.emit2(Op::Div, x, rms);
        p.emit2(Op::Mul, normed, first)
    }

    /// Emits the layer on value `x` of the given shape and state: the fused
    /// kernel where it can be taken, and otherwise the composed steps. The
    /// scale is value `first`.
    pub fn emit_on(
        &self,
        p: &mut Program,
        x: usize,
        first: usize,
        shape: &[usize],
        state: &InputState,
    ) -> (r: usize)
        requires
            shape@.len() >= 1,
            init::products_fit(self.gamma@.shape),
            old(p)@.next() + 7 <= usize::MAX,
        ensures
            final(p)@ == self.run(old(p)@, x as nat, first as nat, shape@, *state),
            r == final(p)@.result,
    {
        if check_input(shape, state, self.normalized_size) && check_param(
            &self.gamma,
            self.normalized_size,
        ) {
            p.emit2(Op::FusedRmsNorm(self.eps), x, first)
        } else {
            self.emit(p, x, first, shape.len())
        }
    }
}

impl Module for RMSNorm {
    open spec fn param_models(&self) -> Seq<ParamModel> {
        seq![self.gamma@]
    }

    open spec fn param_names(&self) -> Seq<Seq<char>> {
        seq!["gamma"@]
    }

    open spec fn forward_model(&self, shape: Seq<usize>, state: InputState) -> Result<
        ProgModel,
        ErrorView,
    > {
        Ok(self.run(ProgModel::start(2), 0, 1, shape, state))
    }

    open spec fn accepts(&self, shape: Seq<usize>) -> bool {
        shape.len() >= 1 && init::products_fit(self.gamma@.shape)
    }

    open spec fn switched(&self, before: &Self, training: bool) -> bool {
        *self == *before
    }

    open spec fn recast(&self, before: &Self, target: Dtype) -> bool {
        &&& self.gamma@ == before.gamma@.cast(target)
        &&& *self == (RMSNorm { gamma: self.gamma, ..*before })
    }

    fn takes(&self, shape: &[usize]) -> (r: bool) {
        shape.len() >= 1 && init::check_products(self.gamma.shape.as_slice())
    }

    fn forward(&self, shape: &[usize], state: &InputState) -> (r: Result<Program, ModuleError>) {
        let mut p = Program::start(2);
        self.emit_on(&mut p, 0, 1, shape, state);
        Ok(p)
    }

    fn parameters(&self) -> (r: Vec<Parameter>) {
        let mut v = module::no_params();
        module::push_param(&mut v, self.gamma.copy());
        assert(module::models(v@) =~= seq![self.gamma@]);
        v
    }

    fn named_parameters(&self) -> (r: Vec<(String, Parameter)>) {
        let mut v = module::no_named();
        module::push_named(&mut v, "gamma", self.gamma.copy());
        assert(module::names(v@) =~= seq!["gamma"@]);
        assert(module::named_models(v@) =~= seq![self.gamma@]);
        v
    }

    fn train(&mut self) {
    }

    fn eval(&mut self) {
    }

    fn to_dtype(&mut self, target: Dtype) {
        self.gamma.cast(target);
        assert(self.param_models() =~= module::cast_all(old(self).param_models(), target));
    }
}

/// Copies of a scale and a shift.
fn scale_and_shift(gamma: &Parameter, beta: &Parameter) -> (r: Vec<Parameter>)
    ensures
        module::models(r@) == seq![gamma@, beta@],
{
    let mut v = module::no_params();
    module::push_param(&mut v, gamma.copy());
    module::push_param(&mut v, beta.copy());
    assert(module::models(v@) =~= seq![gamma@, beta@]);
    v
}

/// Named copies of a scale and a shift.
fn named_scale_and_shift(gamma: &Parameter, beta: &Parameter) -> (r: Vec<(String, Parameter)>)
    ensures
        module::names(r@) == seq!["gamma"@, "beta"@],
        module::named_models(r@) == seq![gamma@, beta@],
{
    let mut v = module::no_named();
    module::push_named(&mut v, "gamma", gamma.copy());
    module::push_named(&mut v, "beta", beta.copy());
    assert(module::names(v@) =~= seq!["gamma"@, "beta"@]);
    assert(module::named_models(v@) =~= seq![gamma@, beta@]);
    v
}

/// The first steps of layer normalisation along axis `last`, up to the
/// centred values: `x - mean(x)`.
pub open spec fn emit_centered(p: ProgModel, x: nat, last: nat) -> ProgModel {
    let mean = p.emit(OpModel::MeanDim(last), seq![x]);
    mean.emit(OpModel::Sub, seq![x, mean.result])
}

/// The steps of layer normalisation along axis `last`:
/// `(x - mean) / sqrt(mean((x - mean)^2) + eps) * gamma + beta`.
pub open spec fn emit_layer_norm(
    p: ProgModel,
    x: nat,
    gamma: nat,
    beta: nat,
    eps: u32,
    last: nat,
) -> ProgModel {
    let centered = emit_centered(p, x, last);
    let sq = centered.emit(OpModel::Mul, seq![centered.result, centered.result]);
    let var = sq.emit(OpModel::MeanDim(last), seq![sq.result]);
    let e = var.emit(OpModel::Constant(eps), seq![]);
    let sum = e.emit(OpModel::Add, seq![var.result, e.result]);
    let std = sum.emit(OpModel::Sqrt, seq![sum.result]);
    let normed = std.emit(OpModel::Div, seq![centered.result, std.result]);
    let scaled = normed.emit(OpModel::Mul, seq![normed.result, gamma]);
    scaled.emit(OpModel::Add, seq![scaled.result, beta])
}

/// Shape of layer normalisation inside a program.
pub proof fn lemma_layer_norm_shape(
    p: ProgModel,
    env: Seq<Seq<usize>>,
    e: Seq<Seq<usize>>,
    x: nat,
    gamma: nat,
    beta: nat,
    eps: u32,
    shape: Seq<usize>,
) -> (f: Seq<Seq<usize>>)
    requires
        p.shapes(env) == Some(e),
        shape.len() >= 1,
        x < e.len() && e[x as int] == shape,
        gamma < e.len() && e[gamma as int] == seq![shape.last()],
        beta < e.len() && e[beta as int] == seq![shape.last()],
    ensures
        ({
            let q = emit_layer_norm(p, x, gamma, beta, eps, (shape.len() - 1) as nat);
            &&& q.shapes(env) == Some(f)
            &&& q.result < f.len()
            &&& f[q.result as int] == shape
            &&& program::extends(f, e)
            &&& q.inputs == p.inputs
        }),
{
    let last = (shape.len() - 1) as nat;
    let m = shape.update(last as int, 1);
    program::lemma_infer_len(p.steps, env);
    program::lemma_broadcasts(shape);
    program::lemma_broadcasts(m);
    program::lemma_emit1(p, env, e, OpModel::MeanDim(last), x, m);
    let mean = p.emit(OpModel::MeanDim(last), seq![x]);
    let ea = e.push(m);
    program::lemma_emit2(mean, env, ea, OpModel::Sub, x, mean.result, shape);
    let centered = mean.emit(OpModel::Sub, seq![x, mean.result]);
    let eb = ea.push(shape);
    let c = centered.result;
    program::lemma_emit2(centered, env, eb, OpModel::Mul, c, c, shape);
    let sq = centered.emit(OpModel::Mul, seq![c, c]);
    let e1 = eb.push(shape);
    program::lemma_emit1(sq, env, e1, OpModel::MeanDim(last), sq.result, m);
    let var = sq.emit(OpModel::MeanDim(last), seq![sq.result]);
    let e2 = e1.push(m);
    program::lemma_emit0(var, env, e2, OpModel::Constant(eps), seq![]);
    let k = var.emit(OpModel::Constant(eps), seq![]);
    let e3 = e2.push(seq![]);
    program::lemma_emit2(k, env, e3, OpModel::Add, var.result, k.result, m);
    let sum = k.emit(OpModel::Add, seq![var.result, k.result]);
    let e4 = e3.push(m);
    program::lemma_emit1(sum, env, e4, OpModel::Sqrt, sum.result, m);
    let std = sum.emit(OpModel::Sqrt, seq![sum.result]);
    let e5 = e4.push(m);
    program::lemma_emit2(std, env, e5, OpModel::Div, c, std.result, shape);
    let normed = std.emit(OpModel::Div, seq![c, std.result]);
    let e6 = e5.push(shape);
    program::lemma_emit2(normed, env, e6, OpModel::Mul, normed.result, gamma, shape);
    let scaled = normed.emit(OpModel::Mul, seq![normed.result, gamma]);
    let e7 = e6.push(shape);
    program::lemma_emit2(scaled, env, e7, OpModel::Add, scaled.result, beta, shape);
    e7.push(shape)
}

/// `y = (x - mean) / sqrt(var + eps) * gamma + beta` over the last axis.
#[derive(Debug)]
pub struct LayerNorm {
    /// `[normalized_size]`.
    pub gamma: Parameter,
    /// `[normalized_size]`.
    pub beta: Parameter,
    /// The bits of the epsilon.
    pub eps: u32,
    pub normalized_size: usize,
}

impl LayerNorm {
    /// A layer with scale one, shift zero and the default epsilon.
    pub fn new(normalized_size: usize) -> (r: Self)
        ensures
            r.gamma@ == ParamModel::ones(normalized_size),
            r.beta@ == ParamModel::zeros(normalized_size),
            r.eps == NORM_EPS,
            r.normalized_size == normalized_size,
    {
        Self::with_eps(normalized_size, NORM_EPS)
    }

    /// A layer with scale one, shift zero and an epsilon given by its bits.
    pub fn with_eps(normalized_size: usize, eps: u32) -> (r: Self)
        ensures
            r.gamma@ == ParamModel::ones(normalized_size),
            r.beta@ == ParamModel::zeros(normalized_size),
            r.eps == eps,
            r.normalized_size == normalized_size,
    {
        LayerNorm {
            gamma: Parameter::ones(normalized_size),
            beta: Parameter::zeros(normalized_size),
            eps,
            normalized_size,
        }
    }

    /// Size of the last axis.
    pub fn normalized_size(&self) -> (r: usize)
        ensures
            r == self.normalized_size,
    {
        self.normalized_size
    }

    /// The fused kernel is taken.
    pub open spec fn fuses(self, shape: Seq<usize>, state: InputState) -> bool {
        &&& input_fits(shape, state, self.normalized_size)
        &&& param_fits(self.gamma@, self.normalized_size)
        &&& param_fits(self.beta@, self.normalized_size)
    }

    /// The steps on a value of the given shape and state: the fused kernel
    /// where it can be taken, and otherwise the composed steps.
    pub open spec fn run(
        self,
        p: ProgModel,
        x: nat,
        gamma: nat,
        beta: nat,
        shape: Seq<usize>,
        state: InputState,
    ) -> ProgModel {
        if self.fuses(shape, state) {
            p.emit(OpModel::FusedLayerNorm(self.eps), seq![x, gamma, beta])
        } else {
            emit_layer_norm(p, x, gamma, beta, self.eps, (shape.len() - 1) as nat)
        }
    }

    /// Emits the layer on value `x` of the given rank; scale and shift are the
    /// values from `first` on.
    fn emit(&self, p: &mut Program, x: usize, first: usize, rank: usize) -> (r: usize)
        requires
            rank >= 1,
            first < usize::MAX,
            old(p)@.next() + 10 <= usize::MAX,
        ensures
            final(p)@ == emit_layer_norm(
                old(p)@,
                x as nat,
                first as nat,
                (first + 1) as nat,
                self.eps,
                (rank - 1) as nat,
            ),
            r == final(p)@.result,
    {
        let mean: usize = p.emit1(Op::MeanDim(rank - 1), x);
        let centered: usize = p.emit2(Op::Sub, x, mean);
        let sq: usize = p.emit2(Op::Mul, centered, centered);
        let var: usize = p.emit1(Op::MeanDim(rank - 1), sq);
        let e: usize = p.emit0(Op::Constant(self.eps));
        let sum: usize = p.emit2(Op::Add, var, e);
        let std: usize = p.emit1(Op::Sqrt, sum);
        let normed: usize = p.emit2(Op::Div, centered, std);
        let scaled: usize = p.emit2(Op::Mul, normed, first);
        p.emit2(Op::Add, scaled, first + 1)
    }

    /// Emits the layer on value `x` of the given shape and state: the fused
    /// kernel where it can be taken, and otherwise the composed steps. Scale
    /// and shift are the values from `first` on.
    pub fn emit_on(
        &self,
        p: &mut Program,
        x: usize,
        first: usize,
        shape: &[usize],
        state: &InputState,
    ) -> (r: usize)
        requires
            shape@.len() >= 1,
            first < usize::MAX,
            init::products_fit(self.gamma@.shape),
            init::products_fit(self.beta@.shape),
            old(p)@.next() + 10 <= usize::MAX,
        ensures
            final(p)@ == self.run(
                old(p)@,
                x as nat,
                first as nat,
                (first + 1) as nat,
                shape@,
                *state,
            ),
            r == final(p)@.result,
    {
        if check_input(shape, state, self.normalized_size) && check_param(
            &self.gamma,
            self.normalized_size,
        ) && check_param(&self.beta, self.normalized_size) {
            p.emit3(Op::FusedLayerNorm(self.eps), x, first, first + 1)
        } else {
            self.emit(p, x, first, shape.len())
        }
    }
}

impl Module for LayerNorm {
    open spec fn param_models(&self) -> Seq<ParamModel> {
        seq![self.gamma@, self.beta@]
    }

    open spec fn param_names(&self) -> Seq<Seq<char>> {
        seq!["gamma"@, "beta"@]
    }

    open spec fn forward_model(&self, shape: Seq<usize>, state: InputState) -> Result<
        ProgModel,
        ErrorView,
    > {
        Ok(self.run(ProgModel::start(3), 0, 1, 2, shape, state))
    }

    open spec fn accepts(&self, shape: Seq<usize>) -> bool {
        shape.len() >= 1 && init::products_fit(self.gamma@.shape) && init::products_fit(
            self.beta@.shape,
        )
    }

    open spec fn switched(&self, before: &Self, training: bool) -> bool {
        *self == *before
    }

    open spec fn recast(&self, before: &Self, target: Dtype) -> bool {
        &&& self.gamma@ == before.gamma@.cast(target)
        &&& self.beta@ == before.beta@.cast(target)
        &&& *self == (LayerNorm { gamma: self.gamma, beta: self.beta, ..*before })
    }

    fn takes(&self, shape: &[usize]) -> (r: bool) {
        shape.len() >= 1 && init::check_products(self.gamma.shape.as_slice())
            && init::check_products(self.beta.shape.as_slice())
    }

    fn forward(&self, shape: &[usize], state: &InputState) -> (r: Result<Program, ModuleError>) {
        let mut p = Program::start(3);
        self.emit_on(&mut p, 0, 1, shape, state);
        Ok(p)
    }

    fn parameters(&self) -> (r: Vec<Parameter>) {
        scale_and_shift(&self.gamma, &self.beta)
    }

    fn named_parameters(&self) -> (r: Vec<(String, Parameter)>) {
        named_scale_and_shift(&self.gamma, &self.beta)
    }

    fn train(&mut self) {
    }

    fn eval(&mut self) {
    }

    fn to_dtype(&mut self, target: Dtype) {
        self.gamma.cast(target);
        self.beta.cast(target);
        assert(self.param_models() =~= module::cast_all(old(self).param_models(), target));
    }
}

/// Normalisation of each channel of `[N, C, H, W]` over the batch and the
/// spatial axes.
#[derive(Debug)]
pub struct BatchNorm2d {
    /// `[num_features]`.
    pub gamma: Parameter,
    /// `[num_features]`.
    pub beta: Parameter,
    /// The bits of the epsilon.
    pub eps: u32,
    pub num_features: usize,
}

impl BatchNorm2d {
    /// A layer with scale one, shift zero and the default epsilon.
    pub fn new(num_features: usize) -> (r: Self)
        ensures
            r.gamma@ == ParamModel::ones(num_features),
            r.beta@ == ParamModel::zeros(num_features),
            r.eps == NORM_EPS,
            r.num_features == num_features,
    {
        Self::with_eps(num_features, NORM_EPS)
    }

    /// A layer with scale one, shift zero and an epsilon given by its bits.
    pub fn with_eps(num_features: usize, eps: u32) -> (r: Self)
        ensures
            r.gamma@ == ParamModel::ones(num_features),
            r.beta@ == ParamModel::zeros(num_features),
            r.eps == eps,
            r.num_features == num_features,
    {
        BatchNorm2d {
            gamma: Parameter::ones(num_features),
            beta: Parameter::zeros(num_features),
            eps,
            num_features,
        }
    }

    /// Channel count.
    pub fn num_features(&self) -> (r: usize)
        ensures
            r == self.num_features,
    {
        self.num_features
    }
}

impl Module for BatchNorm2d {
    open spec fn param_models(&self) -> Seq<ParamModel> {
        seq![self.gamma@, self.beta@]
    }

    open spec fn param_names(&self) -> Seq<Seq<char>> {
        seq!["gamma"@, "beta"@]
    }

    open spec fn forward_model(&self, shape: Seq<usize>, state: InputState) -> Result<
        ProgModel,
        ErrorView,
    > {
        Ok(ProgModel::start(3).emit(OpModel::BatchNorm2d(self.eps), seq![0, 1, 2]))
    }

    open spec fn accepts(&self, shape: Seq<usize>) -> bool {
        true
    }

    open spec fn switched(&self, before: &Self, training: bool) -> bool {
        *self == *before
    }

    open spec fn recast(&self, before: &Self, target: Dtype) -> bool {
        &&& self.gamma@ == before.gamma@.cast(target)
        &&& self.beta@ == before.beta@.cast(target)
        &&& *self == (BatchNorm2d { gamma: self.gamma, beta: self.beta, ..*before })
    }

    fn takes(&self, shape: &[usize]) -> (r: bool) {
        true
    }

    fn forward(&self, shape: &[usize], state: &InputState) -> (r: Result<Program, ModuleError>) {
        let mut p = Program::start(3);
        p.emit3(Op::BatchNorm2d(self.eps), 0, 1, 2);
        Ok(p)
    }

    fn parameters(&self) -> (r: Vec<Parameter>) {
        scale_and_shift(&self.gamma, &self.beta)
    }

    fn named_parameters(&self) -> (r: Vec<(String, Parameter)>) {
        named_scale_and_shift(&self.gamma, &self.beta)
    }

    fn train(&mut self) {
    }

    fn eval(&mut self) {
    }

    fn to_dtype(&mut self, target: Dtype) {
        self.gamma.cast(target);
        self.beta.cast(target);
        assert(self.param_models() =~= module::cast_all(old(self).param_models(), target));
    }
}

/// Shape of root-mean-square normalisation inside a program, whichever way it
/// is run.
pub proof fn lemma_rms_run_shape(
    n: RMSNorm,
    p: ProgModel,
    env: Seq<Seq<usize>>,
    e: Seq<Seq<usize>>,
    x: nat,
    gamma: nat,
    shape: Seq<usize>,
    state: InputState,
) -> (f: Seq<Seq<usize>>)
    requires
        p.shapes(env) == Some(e),
        shape.len() >= 1,
        x < e.len() && e[x as int] == shape,
        gamma < e.len() && e[gamma as int] == seq![shape.last()],
    ensures
        ({
            let q = n.run(p, x, gamma, shape, state);
            &&& q.shapes(env) == Some(f)
            &&& q.result < f.len()
            &&& f[q.result as int] == shape
            &&& program::extends(f, e)
            &&& q.inputs == p.inputs
        }),
{
    if n.fuses(shape, state) {
        program::lemma_products(shape.last(), 0, 0, 0);
        program::lemma_emit2(p, env, e, OpModel::FusedRmsNorm(n.eps), x, gamma, shape);
        e.push(shape)
    } else {
        lemma_rms_shape(p, env, e, x, gamma, n.eps, shape)
    }
}

/// Root-mean-square normalisation keeps the shape, whichever way it is run.
pub proof fn law_rms_norm_shape(n: RMSNorm, shape: Seq<usize>, state: InputState)
    requires
        shape.len() >= 1,
        n.gamma@.shape == seq![shape.last()],
    ensures
        n.forward_model(shape, state) matches Ok(p) && p.output_shape(
            seq![shape, n.gamma@.shape],
        ) == Some(shape),
{
    let env = seq![shape, n.gamma@.shape];
    let p = ProgModel::start(2);
    assert(p.shapes(env) == Some(env));
    let f = lemma_rms_run_shape(n, p, env, env, 0, 1, shape, state);
}

/// Layer normalisation keeps the shape, whichever way it is run.
pub proof fn law_layer_norm_shape(n: LayerNorm, shape: Seq<usize>, state: InputState)
    requires
        shape.len() >= 1,
        n.gamma@.shape == seq![shape.last()],
        n.beta@.shape == seq![shape.last()],
    ensures
        n.forward_model(shape, state) matches Ok(p) && p.output_shape(
            seq![shape, n.gamma@.shape, n.beta@.shape],
        ) == Some(shape),
{
    let env = seq![shape, n.gamma@.shape, n.beta@.shape];
    let p = ProgModel::start(3);
    assert(p.shapes(env) == Some(env));
    if n.fuses(shape, state) {
        program::lemma_emit3(p, env, env, OpModel::FusedLayerNorm(n.eps), 0, 1, 2, shape);
    } else {
        let f = lemma_layer_norm_shape(p, env, env, 0, 1, 2, n.eps, shape);
    }
}

/// Batch normalisation keeps the shape.
pub proof fn law_batch_norm_shape(n: BatchNorm2d, shape: Seq<usize>, state: InputState)
    requires
        shape.len() == 4,
        n.gamma@.shape == seq![shape[1]],
        n.beta@.shape == seq![shape[1]],
    ensures
        n.forward_model(shape, state) matches Ok(p) && p.output_shape(
            seq![shape, n.gamma@.shape, n.beta@.shape],
        ) == Some(shape),
{
    let env = seq![shape, n.gamma@.shape, n.beta@.shape];
    let p = ProgModel::start(3);
    assert(p.shapes(env) == Some(env));
    program::lemma_emit3(p, env, env, OpModel::BatchNorm2d(n.eps), 0, 1, 2, shape);
}

/// Where gradients are tracked, the composed steps are run: the fused kernels
/// leave nothing for gradients to flow through.
pub proof fn law_tracking_is_composed(
    r: RMSNorm,
    l: LayerNorm,
    shape: Seq<usize>,
    state: InputState,
)
    requires
        state.tracking,
    ensures
        r.forward_model(shape, state) == Ok::<ProgModel, ErrorView>(
            emit_rms(ProgModel::start(2), 0, 1, r.eps, (shape.len() - 1) as nat),
        ),
        l.forward_model(shape, state) == Ok::<ProgModel, ErrorView>(
            emit_layer_norm(ProgModel::start(3), 0, 1, 2, l.eps, (shape.len() - 1) as nat),
        ),
{
}

/// A new layer takes the fused kernel on every dense single-precision input of
/// its size whose gradients are not tracked.
pub proof fn law_untracked_is_fused(
    r: RMSNorm,
    l: LayerNorm,
    shape: Seq<usize>,
    state: InputState,
)
    requires
        !state.tracking,
        state.dtype == Dtype::F32,
        state.contiguous,
        shape.len() >= 1,
        r.normalized_size == shape.last(),
        r.gamma@ == ParamModel::ones(r.normalized_size),
        l.normalized_size == shape.last(),
        l.gamma@ == ParamModel::ones(l.normalized_size),
        l.beta@ == ParamModel::zeros(l.normalized_size),
    ensures
        r.forward_model(shape, state) == Ok::<ProgModel, ErrorView>(
            ProgModel::start(2).emit(OpModel::FusedRmsNorm(r.eps), seq![0, 1]),
        ),
        l.forward_model(shape, state) == Ok::<ProgModel, ErrorView>(
            ProgModel::start(3).emit(OpModel::FusedLayerNorm(l.eps), seq![0, 1, 2]),
        ),
{
    program::lemma_products(shape.last(), 0, 0, 0);
}

/// Where a fused kernel is taken, the parameters have the lengths that it
/// works on.
pub proof fn law_fused_fits(r: RMSNorm, l: LayerNorm, shape: Seq<usize>, state: InputState)
    ensures
        r.fuses(shape, state) ==> shape.len() >= 1 && init::product(r.gamma@.shape) == shape.last(),
        l.fuses(shape, state) ==> shape.len() >= 1 && init::product(l.gamma@.shape) == shape.last()
            && init::product(l.beta@.shape) == shape.last(),
{
}

/// Batch normalisation computes `(x - mean_c) / sqrt(var_c + eps) * gamma[c] +
/// beta[c]`, where the mean and the variance of channel `c` are taken over the
/// batch and the spatial axes. The parameter named `gamma` comes first behind
/// the input, the one named `beta` second.
pub proof fn law_batch_norm_computes<T>(
    b: BatchNorm2d,
    num: Num<T>,
    x: Dense<T>,
    gamma: Dense<T>,
    beta: Dense<T>,
    state: InputState,
    n: int,
    c: int,
    y: int,
    z: int,
)
    requires
        x.shape.len() == 4,
        0 <= n < x.shape[0],
        0 <= c < x.shape[1],
        0 <= y < x.shape[2],
        0 <= z < x.shape[3],
    ensures
        b.param_names()[0] == "gamma"@ && b.param_models()[0] == b.gamma@,
        b.param_names()[1] == "beta"@ && b.param_models()[1] == b.beta@,
        b.forward_model(x.shape, state) is Ok,
        ({
            let r = meaning::computes(
                num,
                b.forward_model(x.shape, state)->Ok_0,
                seq![x, gamma, beta],
            );
            let mean = meaning::channel_mean(num, x, c, |v: T| v);
            let var = meaning::channel_mean(num, x, c, |v: T| num.square((num.sub)(v, mean)));
            let normed = (num.div)(
                (num.sub)(x.at(meaning::ix4(n, c, y, z)), mean),
                (num.sqrt)((num.add)(var, (num.of_bits)(b.eps))),
            );
            r.at(meaning::ix4(n, c, y, z)) == (num.add)(
                (num.mul)(normed, gamma.at(meaning::ix1(c))),
                beta.at(meaning::ix1(c)),
            )
        }),
{
    let p = ProgModel::start(3);
    let inputs = seq![x, gamma, beta];
    assert(meaning::values(num, p, inputs) == inputs);
    meaning::lemma_step(num, p, inputs, OpModel::BatchNorm2d(b.eps), seq![0, 1, 2]);
    let idx = meaning::ix4(n, c, y, z);
    assert(meaning::inside(x.shape, idx));
    meaning::lemma_table::<T>(x.shape, idx);
    assert(idx[1] == c);
}

/// Reading a row mean and a per-feature parameter at an index.
proof fn lemma_row_reads(shape: Seq<usize>, idx: Seq<int>)
    requires
        shape.len() >= 1,
        meaning::inside(shape, idx),
    ensures
        ({
            let m = shape.update(shape.len() - 1, 1);
            let at = idx.update(idx.len() - 1, 0);
            &&& meaning::inside(m, at)
            &&& meaning::broadcast_index(m, idx) == at
            &&& meaning::broadcast_index(m, at) == at
            &&& meaning::broadcast_index(seq![], at) == Seq::<int>::empty()
            &&& meaning::broadcast_index(seq![shape.last()], idx) == meaning::ix1(idx.last())
            &&& forall|l: int| #[trigger] at.update(idx.len() - 1, l) == idx.update(idx.len() - 1, l)
            &&& forall|l: int|
                0 <= l < shape.last() ==> meaning::inside(
                    shape,
                    #[trigger] idx.update(idx.len() - 1, l),
                )
        }),
{
    let m = shape.update(shape.len() - 1, 1);
    let at = idx.update(idx.len() - 1, 0);
    assert forall|i: int| 0 <= i < shape.len() implies 0 <= #[trigger] at[i] < m[i] by {
        assert(0 <= idx[i] < shape[i]);
    }
    assert(0 <= idx[idx.len() - 1] < shape[shape.len() - 1]);
    assert forall|i: int| 0 <= i < shape.len() implies meaning::broadcast_index(m, idx)[i]
        == at[i] by {
        assert(0 <= idx[i] < shape[i]);
    }
    assert(meaning::broadcast_index(m, idx) =~= at);
    meaning::lemma_broadcast_same(m, at);
    assert(meaning::broadcast_index(seq![], at) =~= Seq::<int>::empty());
    assert(meaning::broadcast_index(seq![shape.last()], idx) =~= meaning::ix1(idx.last()));
    assert forall|l: int| #[trigger] at.update(idx.len() - 1, l) == idx.update(
        idx.len() - 1,
        l,
    ) by {
        assert(at.update(idx.len() - 1, l) =~= idx.update(idx.len() - 1, l));
    }
    assert forall|l: int| 0 <= l < shape.last() implies meaning::inside(
        shape,
        #[trigger] idx.update(idx.len() - 1, l),
    ) by {
        let u = idx.update(idx.len() - 1, l);
        assert forall|i: int| 0 <= i < shape.len() implies 0 <= #[trigger] u[i] < shape[i] by {
            assert(0 <= idx[i] < shape[i]);
        }
    }
}

/// The mean of `y` along the last axis, with a constant added and the root
/// taken, at the row of `idx`.
proof fn lemma_root_mean<T>(
    num: Num<T>,
    p: ProgModel,
    inputs: Seq<Dense<T>>,
    y: nat,
    eps: u32,
    shape: Seq<usize>,
    idx: Seq<int>,
)
    requires
        inputs.len() == p.inputs,
        shape.len() >= 1,
        y < meaning::values(num, p, inputs).len(),
        meaning::values(num, p, inputs)[y as int].shape == shape,
    ensures
        ({
            let last = (shape.len() - 1) as nat;
            let mean = p.emit(OpModel::MeanDim(last), seq![y]);
            let e = mean.emit(OpModel::Constant(eps), seq![]);
            let sum = e.emit(OpModel::Add, seq![mean.result, e.result]);
            let q = sum.emit(OpModel::Sqrt, seq![sum.result]);
            let r = meaning::computes(num, q, inputs);
            &&& meaning::goes_on(num, p, q, inputs)
            &&& r.shape == shape.update(shape.len() - 1, 1)
            &&& meaning::inside(shape, idx) ==> r.at(idx.update(idx.len() - 1, 0)) == (num.sqrt)(
                (num.add)(
                    meaning::row_mean(num, meaning::values(num, p, inputs)[y as int], idx),
                    (num.of_bits)(eps),
                ),
            )
        }),
{
    let last = (shape.len() - 1) as nat;
    let a = meaning::values(num, p, inputs)[y as int];
    let m = shape.update(shape.len() - 1, 1);
    let at = idx.update(idx.len() - 1, 0);
    let pm = p.emit(OpModel::MeanDim(last), seq![y]);
    meaning::lemma_step(num, p, inputs, OpModel::MeanDim(last), seq![y]);
    let mv = meaning::computes(num, pm, inputs);
    let pe = pm.emit(OpModel::Constant(eps), seq![]);
    meaning::lemma_step(num, pm, inputs, OpModel::Constant(eps), seq![]);
    meaning::lemma_goes_on(num, p, pm, pe, inputs);
    let ev = meaning::computes(num, pe, inputs);
    let ps = pe.emit(OpModel::Add, seq![pm.result, pe.result]);
    meaning::lemma_step(num, pe, inputs, OpModel::Add, seq![pm.result, pe.result]);
    meaning::lemma_goes_on(num, p, pe, ps, inputs);
    assert(meaning::values(num, pe, inputs)[pm.result as int] == mv);
    let sv = meaning::computes(num, ps, inputs);
    program::lemma_broadcasts(m);
    assert(ev.shape =~= seq![]);
    assert(sv.shape == m);
    let pr = ps.emit(OpModel::Sqrt, seq![ps.result]);
    meaning::lemma_step(num, ps, inputs, OpModel::Sqrt, seq![ps.result]);
    meaning::lemma_goes_on(num, p, ps, pr, inputs);
    if meaning::inside(shape, idx) {
        lemma_row_reads(shape, idx);
        meaning::lemma_table::<T>(m, at);
        let f = |l: int| a.at(at.update(last as int, l));
        let g = |l: int| a.at(idx.update(idx.len() - 1, l));
        assert forall|l: int| 0 <= l < shape.last() implies #[trigger] f(l) == g(l) by {
            assert(at.update(idx.len() - 1, l) == idx.update(idx.len() - 1, l));
        }
        meaning::lemma_sum_congruent(num, shape.last() as int, f, g);
        assert(mv.at(at) == num.mean(shape.last() as int, f));
        assert(ev.at(Seq::<int>::empty()) == ev.data[0]);
        assert(sv.at(at) == (num.add)(mv.at(at), ev.data[0]));
    }
}

/// What the composed steps of root-mean-square normalisation compute.
pub proof fn lemma_rms_value<T>(
    num: Num<T>,
    p: ProgModel,
    inputs: Seq<Dense<T>>,
    x: nat,
    gamma: nat,
    eps: u32,
    shape: Seq<usize>,
    idx: Seq<int>,
)
    requires
        inputs.len() == p.inputs,
        shape.len() >= 1,
        x < meaning::values(num, p, inputs).len(),
        gamma < meaning::values(num, p, inputs).len(),
        meaning::values(num, p, inputs)[x as int].shape == shape,
        meaning::values(num, p, inputs)[gamma as int].shape == seq![shape.last()],
    ensures
        ({
            let e = meaning::values(num, p, inputs);
            let q = emit_rms(p, x, gamma, eps, (shape.len() - 1) as nat);
            let r = meaning::computes(num, q, inputs);
            let a = e[x as int];
            &&& meaning::goes_on(num, p, q, inputs)
            &&& r.shape == shape
            &&& r.data.len() == init::product(shape)
            &&& meaning::inside(shape, idx) ==> r.at(idx) == (num.mul)(
                (num.div)(
                    a.at(idx),
                    (num.sqrt)(
                        (num.add)(meaning::row_mean_square(num, a, idx), (num.of_bits)(eps)),
                    ),
                ),
                e[gamma as int].at(meaning::ix1(idx.last())),
            )
        }),
{
    let e = meaning::values(num, p, inputs);
    let a = e[x as int];
    let last = (shape.len() - 1) as nat;
    let m = shape.update(shape.len() - 1, 1);
    let at = idx.update(idx.len() - 1, 0);
    init::lemma_product_nonneg(shape);
    program::lemma_broadcasts(shape);
    let sq = p.emit(OpModel::Mul, seq![x, x]);
    meaning::lemma_step(num, p, inputs, OpModel::Mul, seq![x, x]);
    let qv = meaning::computes(num, sq, inputs);
    assert(qv.shape == shape);
    lemma_root_mean(num, sq, inputs, sq.result, eps, shape, idx);
    let mean = sq.emit(OpModel::MeanDim(last), seq![sq.result]);
    let ep = mean.emit(OpModel::Constant(eps), seq![]);
    let sum = ep.emit(OpModel::Add, seq![mean.result, ep.result]);
    let rms = sum.emit(OpModel::Sqrt, seq![sum.result]);
    meaning::lemma_goes_on(num, p, sq, rms, inputs);
    let rv = meaning::computes(num, rms, inputs);
    let normed = rms.emit(OpModel::Div, seq![x, rms.result]);
    meaning::lemma_step(num, rms, inputs, OpModel::Div, seq![x, rms.result]);
    meaning::lemma_goes_on(num, p, rms, normed, inputs);
    assert(meaning::values(num, rms, inputs)[x as int] == a);
    let nv = meaning::computes(num, normed, inputs);
    assert(nv.shape == shape);
    let q = normed.emit(OpModel::Mul, seq![normed.result, gamma]);
    meaning::lemma_step(num, normed, inputs, OpModel::Mul, seq![normed.result, gamma]);
    meaning::lemma_goes_on(num, p, normed, q, inputs);
    assert(meaning::values(num, normed, inputs)[gamma as int] == e[gamma as int]);
    if meaning::inside(shape, idx) {
        lemma_row_reads(shape, idx);
        meaning::lemma_table::<T>(shape, idx);
        meaning::lemma_broadcast_same(shape, idx);
        let f = |l: int| qv.at(idx.update(idx.len() - 1, l));
        let g = |l: int| num.square(a.at(idx.update(idx.len() - 1, l)));
        assert forall|l: int| 0 <= l < shape.last() implies #[trigger] f(l) == g(l) by {
            let u = idx.update(idx.len() - 1, l);
            assert(meaning::inside(shape, u));
            meaning::lemma_table::<T>(shape, u);
            meaning::lemma_broadcast_same(shape, u);
        }
        meaning::lemma_sum_congruent(num, shape.last() as int, f, g);
        assert(nv.at(idx) == (num.div)(a.at(idx), rv.at(at)));
    }
}

/// Root-mean-square normalisation computes `x / sqrt(mean(x^2) + eps) * gamma`
/// along the last axis: composed of elementary steps, or as the fused kernel
/// with the product by the reciprocal.
pub proof fn law_rms_norm_computes<T>(
    n: RMSNorm,
    num: Num<T>,
    x: Dense<T>,
    gamma: Dense<T>,
    state: InputState,
    idx: Seq<int>,
)
    requires
        x.shape.len() >= 1,
        gamma.shape == seq![x.shape.last()],
        meaning::inside(x.shape, idx),
    ensures
        n.param_names()[0] == "gamma"@ && n.param_models()[0] == n.gamma@,
        n.forward_model(x.shape, state) is Ok,
        ({
            let r = meaning::computes(num, n.forward_model(x.shape, state)->Ok_0, seq![x, gamma]);
            let eps = (num.of_bits)(n.eps);
            &&& r.shape == x.shape
            &&& r.at(idx) == if n.fuses(x.shape, state) {
                meaning::fused_rms(
                    num,
                    x.shape.last() as int,
                    |l: int| x.at(idx.update(idx.len() - 1, l)),
                    idx.last(),
                    eps,
                    gamma.at(meaning::ix1(idx.last())),
                )
            } else {
                (num.mul)(
                    (num.div)(
                        x.at(idx),
                        (num.sqrt)((num.add)(meaning::row_mean_square(num, x, idx), eps)),
                    ),
                    gamma.at(meaning::ix1(idx.last())),
                )
            }
        }),
{
    let p = ProgModel::start(2);
    let inputs = seq![x, gamma];
    assert(meaning::values(num, p, inputs) == inputs);
    if n.fuses(x.shape, state) {
        meaning::lemma_step(num, p, inputs, OpModel::FusedRmsNorm(n.eps), seq![0, 1]);
        meaning::lemma_table::<T>(x.shape, idx);
        meaning::lemma_ravel_short(gamma.shape, meaning::ix1(idx.last()));
    } else {
        lemma_rms_value(num, p, inputs, 0, 1, n.eps, x.shape, idx);
    }
}

/// What the composed steps of layer normalisation compute.
#[verifier::rlimit(40)]
#[verifier::spinoff_prover]
pub proof fn lemma_layer_norm_value<T>(
    num: Num<T>,
    p: ProgModel,
    inputs: Seq<Dense<T>>,
    x: nat,
    gamma: nat,
    beta: nat,
    eps: u32,
    shape: Seq<usize>,
    idx: Seq<int>,
)
    requires
        inputs.len() == p.inputs,
        shape.len() >= 1,
        meaning::inside(shape, idx),
        x < meaning::values(num, p, inputs).len(),
        gamma < meaning::values(num, p, inputs).len(),
        beta < meaning::values(num, p, inputs).len(),
        meaning::values(num, p, inputs)[x as int].shape == shape,
        meaning::values(num, p, inputs)[gamma as int].shape == seq![shape.last()],
        meaning::values(num, p, inputs)[beta as int].shape == seq![shape.last()],
    ensures
        ({
            let e = meaning::values(num, p, inputs);
            let q = emit_layer_norm(p, x, gamma, beta, eps, (shape.len() - 1) as nat);
            let r = meaning::computes(num, q, inputs);
            let a = e[x as int];
            let mean = meaning::row_mean(num, a, idx);
            &&& meaning::goes_on(num, p, q, inputs)
            &&& r.shape == shape
            &&& r.at(idx) == meaning::standardized(
                num,
                a.at(idx),
                mean,
                num.mean(
                    shape.last() as int,
                    |l: int| num.square((num.sub)(a.at(idx.update(idx.len() - 1, l)), mean)),
                ),
                (num.of_bits)(eps),
                e[gamma as int].at(meaning::ix1(idx.last())),
                e[beta as int].at(meaning::ix1(idx.last())),
            )
        }),
{
    let e = meaning::values(num, p, inputs);
    let a = e[x as int];
    let last = (shape.len() - 1) as nat;
    let m = shape.update(shape.len() - 1, 1);
    let at = idx.update(idx.len() - 1, 0);
    lemma_row_reads(shape, idx);
    program::lemma_broadcasts(shape);
    let pm = p.emit(OpModel::MeanDim(last), seq![x]);
    meaning::lemma_step(num, p, inputs, OpModel::MeanDim(last), seq![x]);
    let mv = meaning::computes(num, pm, inputs);
    let centered = pm.emit(OpModel::Sub, seq![x, pm.result]);
    meaning::lemma_step(num, pm, inputs, OpModel::Sub, seq![x, pm.result]);
    meaning::lemma_goes_on(num, p, pm, centered, inputs);
    assert(meaning::values(num, pm, inputs)[x as int] == a);
    let cv = meaning::computes(num, centered, inputs);
    let c = centered.result;
    assert(cv.shape == shape);
    let sq = centered.emit(OpModel::Mul, seq![c, c]);
    meaning::lemma_step(num, centered, inputs, OpModel::Mul, seq![c, c]);
    meaning::lemma_goes_on(num, p, centered, sq, inputs);
    let qv = meaning::computes(num, sq, inputs);
    assert(qv.shape == shape);
    lemma_root_mean(num, sq, inputs, sq.result, eps, shape, idx);
    let var = sq.emit(OpModel::MeanDim(last), seq![sq.result]);
    let k = var.emit(OpModel::Constant(eps), seq![]);
    let sum = k.emit(OpModel::Add, seq![var.result, k.result]);
    let std = sum.emit(OpModel::Sqrt, seq![sum.result]);
    meaning::lemma_goes_on(num, p, sq, std, inputs);
    meaning::lemma_goes_on(num, centered, sq, std, inputs);
    let rv = meaning::computes(num, std, inputs);
    assert(meaning::values(num, std, inputs)[c as int] == cv);
    let normed = std.emit(OpModel::Div, seq![c, std.result]);
    meaning::lemma_step(num, std, inputs, OpModel::Div, seq![c, std.result]);
    meaning::lemma_goes_on(num, p, std, normed, inputs);
    let nv = meaning::computes(num, normed, inputs);
    assert(nv.shape == shape);
    let scaled = normed.emit(OpModel::Mul, seq![normed.result, gamma]);
    meaning::lemma_step(num, normed, inputs, OpModel::Mul, seq![normed.result, gamma]);
    meaning::lemma_goes_on(num, p, normed, scaled, inputs);
    assert(meaning::values(num, normed, inputs)[gamma as int] == e[gamma as int]);
    let gv = meaning::computes(num, scaled, inputs);
    assert(gv.shape == shape);
    let q = scaled.emit(OpModel::Add, seq![scaled.result, beta]);
    meaning::lemma_step(num, scaled, inputs, OpModel::Add, seq![scaled.result, beta]);
    meaning::lemma_goes_on(num, p, scaled, q, inputs);
    assert(meaning::values(num, scaled, inputs)[beta as int] == e[beta as int]);
    meaning::lemma_table::<T>(shape, idx);
    meaning::lemma_broadcast_same(shape, idx);
    let mean = meaning::row_mean(num, a, idx);
    assert(mv.at(at) == mean) by {
        meaning::lemma_table::<T>(m, at);
        let f = |l: int| a.at(at.update(last as int, l));
        let g = |l: int| a.at(idx.update(idx.len() - 1, l));
        assert forall|l: int| 0 <= l < shape.last() implies #[trigger] f(l) == g(l) by {
            assert(at.update(idx.len() - 1, l) == idx.update(idx.len() - 1, l));
        }
        meaning::lemma_sum_congruent(num, shape.last() as int, f, g);
        assert(mv.at(at) == num.mean(shape.last() as int, f));
    }
    assert(cv.at(idx) == (num.sub)(a.at(idx), mean));
    let f = |l: int| qv.at(idx.update(idx.len() - 1, l));
    let g = |l: int| num.square((num.sub)(a.at(idx.update(idx.len() - 1, l)), mean));
    assert forall|l: int| 0 <= l < shape.last() implies #[trigger] f(l) == g(l) by {
        let u = idx.update(idx.len() - 1, l);
        assert(meaning::inside(shape, u));
        meaning::lemma_table::<T>(shape, u);
        meaning::lemma_broadcast_same(shape, u);
        lemma_row_reads(shape, u);
        assert(u.update(u.len() - 1, 0) =~= at);
        assert(cv.at(u) == (num.sub)(a.at(u), mv.at(at)));
    }
    meaning::lemma_sum_congruent(num, shape.last() as int, f, g);
    assert(nv.at(idx) == (num.div)(cv.at(idx), rv.at(at)));
}

/// Layer normalisation computes `(x - mean) / sqrt(var + eps) * gamma + beta`
/// along the last axis: composed of elementary steps, with the variance as the
/// mean of the squared distances from the mean, or as the fused kernel, with
/// the variance as the mean square less the squared mean. The parameter named
/// `gamma` comes first behind the input, the one named `beta` second.
pub proof fn law_layer_norm_computes<T>(
    n: LayerNorm,
    num: Num<T>,
    x: Dense<T>,
    gamma: Dense<T>,
    beta: Dense<T>,
    state: InputState,
    idx: Seq<int>,
)
    requires
        x.shape.len() >= 1,
        gamma.shape == seq![x.shape.last()],
        beta.shape == seq![x.shape.last()],
        meaning::inside(x.shape, idx),
    ensures
        n.param_names()[0] == "gamma"@ && n.param_models()[0] == n.gamma@,
        n.param_names()[1] == "beta"@ && n.param_models()[1] == n.beta@,
        n.forward_model(x.shape, state) is Ok,
        ({
            let r = meaning::computes(
                num,
                n.forward_model(x.shape, state)->Ok_0,
                seq![x, gamma, beta],
            );
            let eps = (num.of_bits)(n.eps);
            let g = gamma.at(meaning::ix1(idx.last()));
            let b = beta.at(meaning::ix1(idx.last()));
            let row = |l: int| x.at(idx.update(idx.len() - 1, l));
            let d = x.shape.last() as int;
            let mean = num.mean(d, row);
            let var = num.mean(d, |l: int| num.square((num.sub)(row(l), mean)));
            &&& r.shape == x.shape
            &&& r.at(idx) == if n.fuses(x.shape, state) {
                meaning::fused_layer(num, d, row, idx.last(), eps, g, b)
            } else {
                (num.add)(
                    (num.mul)(
                        (num.div)(
                            (num.sub)(x.at(idx), mean),
                            (num.sqrt)((num.add)(var, eps)),
                        ),
                        g,
                    ),
                    b,
                )
            }
        }),
{
    let p = ProgModel::start(3);
    let inputs = seq![x, gamma, beta];
    assert(meaning::values(num, p, inputs) == inputs);
    if n.fuses(x.shape, state) {
        meaning::lemma_step(num, p, inputs, OpModel::FusedLayerNorm(n.eps), seq![0, 1, 2]);
        meaning::lemma_table::<T>(x.shape, idx);
        meaning::lemma_ravel_short(gamma.shape, meaning::ix1(idx.last()));
        meaning::lemma_ravel_short(beta.shape, meaning::ix1(idx.last()));
    } else {
        lemma_layer_norm_value(num, p, inputs, 0, 1, 2, n.eps, x.shape, idx);
        let row = |l: int| x.at(idx.update(idx.len() - 1, l));
        let d = x.shape.last() as int;
        let mean = meaning::row_mean(num, x, idx);
        let f = |l: int| num.square((num.sub)(x.at(idx.update(idx.len() - 1, l)), mean));
        let g = |l: int| num.square((num.sub)(row(l), mean));
        meaning::lemma_sum_congruent(num, d, f, g);
    }
}

/// Root-mean-square normalisation of the entry of `x` at `idx`, in either
/// form.
pub open spec fn rms_at<T>(
    num: Num<T>,
    fused: bool,
    eps: u32,
    x: Dense<T>,
    gamma: Dense<T>,
    idx: Seq<int>,
) -> T {
    let g = gamma.at(meaning::ix1(idx.last()));
    let e = (num.of_bits)(eps);
    if fused {
        meaning::fused_rms(
            num,
            x.shape.last() as int,
            |l: int| x.at(idx.update(idx.len() - 1, l)),
            idx.last(),
            e,
            g,
        )
    } else {
        (num.mul)(
            (num.div)(
                x.at(idx),
                (num.sqrt)((num.add)(meaning::row_mean_square(num, x, idx), e)),
            ),
            g,
        )
    }
}

/// What the layer computes inside a program.
pub proof fn lemma_rms_run_value<T>(
    num: Num<T>,
    n: RMSNorm,
    p: ProgModel,
    inputs: Seq<Dense<T>>,
    x: nat,
    gamma: nat,
    shape: Seq<usize>,
    state: InputState,
)
    requires
        inputs.len() == p.inputs,
        shape.len() >= 1,
        x < meaning::values(num, p, inputs).len(),
        gamma < meaning::values(num, p, inputs).len(),
        meaning::values(num, p, inputs)[x as int].shape == shape,
        meaning::values(num, p, inputs)[gamma as int].shape == seq![shape.last()],
    ensures
        ({
            let e = meaning::values(num, p, inputs);
            let q = n.run(p, x, gamma, shape, state);
            let r = meaning::computes(num, q, inputs);
            &&& meaning::goes_on(num, p, q, inputs)
            &&& r.shape == shape
            &&& r.data.len() == init::product(shape)
            &&& forall|idx: Seq<int>| #![trigger r.at(idx)]
                meaning::inside(shape, idx) ==> r.at(idx) == rms_at(
                    num,
                    n.fuses(shape, state),
                    n.eps,
                    e[x as int],
                    e[gamma as int],
                    idx,
                )
        }),
{
    let e = meaning::values(num, p, inputs);
    let q = n.run(p, x, gamma, shape, state);
    let r = meaning::computes(num, q, inputs);
    init::lemma_product_nonneg(shape);
    if n.fuses(shape, state) {
        meaning::lemma_step(num, p, inputs, OpModel::FusedRmsNorm(n.eps), seq![x, gamma]);
        assert forall|idx: Seq<int>| #![trigger r.at(idx)] meaning::inside(shape, idx) implies r.at(
            idx,
        ) == rms_at(num, true, n.eps, e[x as int], e[gamma as int], idx) by {
            meaning::lemma_table::<T>(shape, idx);
            meaning::lemma_ravel_short(e[gamma as int].shape, meaning::ix1(idx.last()));
        }
    } else {
        lemma_rms_value(num, p, inputs, x, gamma, n.eps, shape, seq![]);
        assert forall|idx: Seq<int>| #![trigger r.at(idx)] meaning::inside(shape, idx) implies r.at(
            idx,
        ) == rms_at(num, false, n.eps, e[x as int], e[gamma as int], idx) by {
            lemma_rms_value(num, p, inputs, x, gamma, n.eps, shape, idx);
        }
    }
}

} // verus!
