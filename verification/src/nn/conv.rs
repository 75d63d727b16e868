//! Convolution and pooling layers.
use crate::nn::init;
use crate::nn::init::{FanMode, Init, Nonlinearity};
use crate::nn::linear;
use crate::nn::meaning;
use crate::nn::meaning::Num;
use crate::nn::module;
use crate::nn::module::{module_error, ErrorView, InputState, Module, ModuleError};
use crate::nn::param;
use crate::nn::param::{Dtype, ParamModel, Parameter, ValuesModel};
use crate::nn::program;
use crate::nn::program::{Dense, Op, OpModel, ProgModel, Program};
use crate::text;
use crate::text::Text;
use vstd::prelude::*;

verus! {

/// The strategy that fills a fresh convolution weight.
pub open spec fn conv_init() -> Init {
    Init::KaimingUniform { mode: FanMode::FanIn, nonlinearity: Nonlinearity::Relu }
}

/// A fresh convolution weight.
pub open spec fn conv_weight(shape: Seq<usize>) -> ParamModel {
    ParamModel::fresh(shape, ValuesModel::Seeded { init: conv_init(), seed: 0 })
}

/// Size and fans of a weight fit the machine.
pub open spec fn weight_fits(shape: Seq<usize>) -> bool {
    init::products_fit(shape) && init::fans_fit(shape)
}

/// Convolution of `[N, C_in, H, W]` with stride one.
#[derive(Debug)]
pub struct Conv2d {
    /// `[out_channels, in_channels, kernel_size.0, kernel_size.1]`.
    pub weight: Parameter,
    /// `[out_channels]`.
    pub bias: Option<Parameter>,
    pub in_channels: usize,
    pub out_channels: usize,
    pub kernel_size: (usize, usize),
    pub padding: (usize, usize),
}

/// The convolution step on value `x`; the parameters start at `first`.
pub open spec fn emit_conv(
    p: ProgModel,
    x: nat,
    first: nat,
    with_bias: bool,
    padding: (usize, usize),
) -> ProgModel {
    let op = OpModel::Conv2d { pad_h: padding.0 as nat, pad_w: padding.1 as nat };
    if with_bias {
        p.emit(op, seq![x, first, first + 1])
    } else {
        p.emit(op, seq![x, first])
    }
}

impl Conv2d {
    /// The shape of the weight.
    pub open spec fn weight_shape(self) -> Seq<usize> {
        seq![self.out_channels, self.in_channels, self.kernel_size.0, self.kernel_size.1]
    }

    /// Number of parameters.
    pub open spec fn count(self) -> nat {
        if self.bias is Some { 2 } else { 1 }
    }

    /// A layer with a square kernel, without padding, and with a zero bias.
    pub fn new(in_channels: usize, out_channels: usize, kernel_size: usize) -> (r: Self)
        requires
            weight_fits(seq![out_channels, in_channels, kernel_size, kernel_size]),
        ensures
            r.in_channels == in_channels,
            r.out_channels == out_channels,
            r.kernel_size == (kernel_size, kernel_size),
            r.padding == (0usize, 0usize),
            r.weight@ == conv_weight(r.weight_shape()),
            r.bias is Some,
            r.bias->0@ == ParamModel::zeros(out_channels),
    {
        Self::with_padding(in_channels, out_channels, (kernel_size, kernel_size), (0, 0))
    }

    /// A layer with the given kernel and padding and with a zero bias.
    pub fn with_padding(
        in_channels: usize,
        out_channels: usize,
        kernel_size: (usize, usize),
        padding: (usize, usize),
    ) -> (r: Self)
        requires
            weight_fits(seq![out_channels, in_channels, kernel_size.0, kernel_size.1]),
        ensures
            r.in_channels == in_channels,
            r.out_channels == out_channels,
            r.kernel_size == kernel_size,
            r.padding == padding,
            r.weight@ == conv_weight(r.weight_shape()),
            r.bias is Some,
            r.bias->0@ == ParamModel::zeros(out_channels),
    {
        let mut shape: Vec<usize> = Vec::new();
        shape.push(out_channels);
        shape.push(in_channels);
        shape.push(kernel_size.0);
        shape.push(kernel_size.1);
        assert(shape@ =~= seq![out_channels, in_channels, kernel_size.0, kernel_size.1]);
        let strategy = Init::KaimingUniform {
            mode: FanMode::FanIn,
            nonlinearity: Nonlinearity::Relu,
        };
        Conv2d {
            weight: Parameter::seeded(shape, strategy, 0),
            bias: Some(Parameter::zeros(out_channels)),
            in_channels,
            out_channels,
            kernel_size,
            padding,
        }
    }

    /// The layer without its bias.
    pub fn no_bias(self) -> (r: Self)
        ensures
            r == (Conv2d { bias: None, ..self }),
    {
        let mut c = self;
        c.bias = None;
        c
    }

    /// Input channels.
    pub fn in_channels(&self) -> (r: usize)
        ensures
            r == self.in_channels,
    {
        self.in_channels
    }

    /// Output channels.
    pub fn out_channels(&self) -> (r: usize)
        ensures
            r == self.out_channels,
    {
        self.out_channels
    }

    /// Height and width of the kernel.
    pub fn kernel_size(&self) -> (r: (usize, usize))
        ensures
            r == self.kernel_size,
    {
        self.kernel_size
    }

    /// Emits the layer on value `x`; the parameters are the values from
    /// `first` on.
    fn emit(&self, p: &mut Program, x: usize, first: usize) -> (id: usize)
        requires
            old(p)@.next() <= usize::MAX,
            first < usize::MAX,
        ensures
            final(p)@ == emit_conv(
                old(p)@,
                x as nat,
                first as nat,
                self.bias is Some,
                self.padding,
            ),
            id == final(p)@.result,
    {
        let op = Op::Conv2d { pad_h: self.padding.0, pad_w: self.padding.1 };
        match &self.bias {
            Some(_) => p.emit3(op, x, first, first + 1),
            None => p.emit2(op, x, first),
        }
    }

    fn input_count(&self) -> (r: usize)
        ensures
            r == 1 + self.count(),
    {
        match &self.bias {
            Some(_) => 3,
            None => 2,
        }
    }
}

impl Module for Conv2d {
    open spec fn param_models(&self) -> Seq<ParamModel> {
        match self.bias {
            Some(b) => seq![self.weight@, b@],
            None => seq![self.weight@],
        }
    }

    open spec fn param_names(&self) -> Seq<Seq<char>> {
        linear::weight_names(self.bias is Some)
    }

    open spec fn forward_model(&self, shape: Seq<usize>, state: InputState) -> Result<
        ProgModel,
        ErrorView,
    > {
        Ok(emit_conv(ProgModel::start(1 + self.count()), 0, 1, self.bias is Some, self.padding))
    }

    open spec fn accepts(&self, shape: Seq<usize>) -> bool {
        true
    }

    open spec fn switched(&self, before: &Self, training: bool) -> bool {
        *self == *before
    }

    open spec fn recast(&self, before: &Self, target: Dtype) -> bool {
        &&& self.weight@ == before.weight@.cast(target)
        &&& param::option_recast(self.bias, before.bias, target)
        &&& *self == (Conv2d { weight: self.weight, bias: self.bias, ..*before })
    }

    fn takes(&self, shape: &[usize]) -> (r: bool) {
        true
    }

    fn forward(&self, shape: &[usize], state: &InputState) -> (r: Result<Program, ModuleError>) {
        let mut p = Program::start(self.input_count());
        self.emit(&mut p, 0, 1);
        Ok(p)
    }

    fn parameters(&self) -> (r: Vec<Parameter>) {
        linear::weight_and_bias(&self.weight, &self.bias)
    }

    fn named_parameters(&self) -> (r: Vec<(String, Parameter)>) {
        linear::named_weight_and_bias(&self.weight, &self.bias)
    }

    fn train(&mut self) {
    }

    fn eval(&mut self) {
    }

    fn to_dtype(&mut self, target: Dtype) {
        self.weight.cast(target);
        match self.bias.take() {
            Some(b) => {
                let mut c = b;
                c.cast(target);
                self.bias = Some(c);
            },
            None => {},
        }
        assert(self.param_models() =~= module::cast_all(old(self).param_models(), target));
    }
}

/// Convolution of `[N, C_in, L]` with stride one, carried out as a
/// two-dimensional convolution with a kernel of height one.
#[derive(Debug)]
pub struct Conv1d {
    pub inner: Conv2d,
    pub kernel_size: usize,
}

/// Why an input of the given shape is refused, or `None`.
pub open spec fn conv1d_error(shape: Seq<usize>) -> Option<ErrorView> {
    if shape.len() != 3 {
        Some(
            ErrorView {
                op: "conv1d"@,
                message: "expected rank-3 input [N, C, L], got "@ + text::shape_text(shape),
            },
        )
    } else {
        None
    }
}

/// Length of the output; zero where the kernel is longer than the padded
/// input, and then the convolution step itself does not apply.
pub open spec fn out_len(l: int, pad: int, k: int) -> usize {
    (if l + 2 * pad + 1 >= k {
        l + 2 * pad + 1 - k
    } else {
        0
    }) as usize
}

impl Conv1d {
    /// The kernel has height one and the length that the layer states, and
    /// there is no padding across it.
    pub open spec fn wf(self) -> bool {
        self.inner.kernel_size == (1usize, self.kernel_size) && self.inner.padding.0 == 0
    }

    fn check(&self) -> (r: bool)
        ensures
            r == self.wf(),
    {
        self.inner.kernel_size.0 == 1 && self.inner.kernel_size.1 == self.kernel_size
            && self.inner.padding.0 == 0
    }

    /// The forward program on `[n, c, l]`.
    pub open spec fn program(self, n: usize, c: usize, l: usize) -> ProgModel {
        let x = ProgModel::start(1 + self.inner.count()).emit(
            OpModel::Reshape(seq![n, c, 1, l]),
            seq![0],
        );
        let y = emit_conv(x, x.result, 1, self.inner.bias is Some, self.inner.padding);
        y.emit(
            OpModel::Reshape(
                seq![
                    n,
                    self.inner.out_channels,
                    out_len(l as int, self.inner.padding.1 as int, self.kernel_size as int),
                ],
            ),
            seq![y.result],
        )
    }

    /// A layer without padding and with a zero bias.
    pub fn new(in_channels: usize, out_channels: usize, kernel_size: usize) -> (r: Self)
        requires
            weight_fits(seq![out_channels, in_channels, 1, kernel_size]),
        ensures
            r.wf(),
            r.kernel_size == kernel_size,
            r.inner.in_channels == in_channels,
            r.inner.out_channels == out_channels,
            r.inner.padding == (0usize, 0usize),
            r.inner.weight@ == conv_weight(seq![out_channels, in_channels, 1, kernel_size]),
            r.inner.bias is Some,
            r.inner.bias->0@ == ParamModel::zeros(out_channels),
    {
        Self::with_padding(in_channels, out_channels, kernel_size, 0)
    }

    /// A layer with padding at both ends and with a zero bias.
    pub fn with_padding(
        in_channels: usize,
        out_channels: usize,
        kernel_size: usize,
        padding: usize,
    ) -> (r: Self)
        requires
            weight_fits(seq![out_channels, in_channels, 1, kernel_size]),
        ensures
            r.wf(),
            r.kernel_size == kernel_size,
            r.inner.in_channels == in_channels,
            r.inner.out_channels == out_channels,
            r.inner.padding == (0usize, padding),
            r.inner.weight@ == conv_weight(seq![out_channels, in_channels, 1, kernel_size]),
            r.inner.bias is Some,
            r.inner.bias->0@ == ParamModel::zeros(out_channels),
    {
        let inner = Conv2d::with_padding(in_channels, out_channels, (1, kernel_size), (0, padding));
        Conv1d { inner, kernel_size }
    }

    /// The layer without its bias.
    pub fn no_bias(self) -> (r: Self)
        ensures
            r == (Conv1d { inner: Conv2d { bias: None, ..self.inner }, ..self }),
    {
        Conv1d { inner: self.inner.no_bias(), kernel_size: self.kernel_size }
    }

    /// Length of the kernel.
    pub fn kernel_size(&self) -> (r: usize)
        ensures
            r == self.kernel_size,
    {
        self.kernel_size
    }
}

impl Module for Conv1d {
    open spec fn param_models(&self) -> Seq<ParamModel> {
        self.inner.param_models()
    }

    open spec fn param_names(&self) -> Seq<Seq<char>> {
        self.inner.param_names()
    }

    open spec fn forward_model(&self, shape: Seq<usize>, state: InputState) -> Result<
        ProgModel,
        ErrorView,
    > {
        module::outcome(conv1d_error(shape), self.program(shape[0], shape[1], shape[2]))
    }

    open spec fn accepts(&self, shape: Seq<usize>) -> bool {
        self.wf() && (shape.len() == 3 ==> shape[2] + 2 * self.inner.padding.1 + 1 <= usize::MAX)
    }

    open spec fn switched(&self, before: &Self, training: bool) -> bool {
        *self == *before
    }

    open spec fn recast(&self, before: &Self, target: Dtype) -> bool {
        self.inner.recast(&before.inner, target) && self.kernel_size == before.kernel_size
    }

    fn takes(&self, shape: &[usize]) -> (r: bool) {
        if !self.check() {
            return false;
        }
        if shape.len() != 3 {
            return true;
        }
        let pad: usize = self.inner.padding.1;
        pad <= (usize::MAX - 1) / 2 && shape[2] <= usize::MAX - 1 - 2 * pad
    }

    fn forward(&self, shape: &[usize], state: &InputState) -> (r: Result<Program, ModuleError>) {
        if shape.len() != 3 {
            return Err(
                module_error(
                    "conv1d",
                    Text::start("expected rank-3 input [N, C, L], got ").shape(shape),
                ),
            );
        }
        let (n, c, l) = (shape[0], shape[1], shape[2]);
        let mut p = Program::start(self.inner.input_count());
        let mut wide: Vec<usize> = Vec::new();
        wide.push(n);
        wide.push(c);
        wide.push(1);
        wide.push(l);
        assert(wide@ =~= seq![n, c, 1, l]);
        let x: usize = p.emit1(Op::Reshape(wide), 0);
        let y: usize = self.inner.emit(&mut p, x, 1);
        let full: usize = l + 2 * self.inner.padding.1 + 1;
        let len: usize = if full >= self.kernel_size {
            full - self.kernel_size
        } else {
            0
        };
        let mut flat: Vec<usize> = Vec::new();
        flat.push(n);
        flat.push(self.inner.out_channels);
        flat.push(len);
        assert(flat@ =~= seq![n, self.inner.out_channels, len]);
        p.emit1(Op::Reshape(flat), y);
        Ok(p)
    }

    fn parameters(&self) -> (r: Vec<Parameter>) {
        self.inner.parameters()
    }

    fn named_parameters(&self) -> (r: Vec<(String, Parameter)>) {
        self.inner.named_parameters()
    }

    fn train(&mut self) {
    }

    fn eval(&mut self) {
    }

    fn to_dtype(&mut self, target: Dtype) {
        self.inner.to_dtype(target);
    }
}

/// Maximum over windows of `[N, C, H, W]`.
#[derive(Debug, Clone, Copy)]
pub struct MaxPool2d {
    pub kernel_size: (usize, usize),
    pub stride: (usize, usize),
}

impl MaxPool2d {
    /// Square windows side by side.
    pub fn new(kernel_size: usize) -> (r: Self)
        ensures
            r.kernel_size == (kernel_size, kernel_size),
            r.stride == (kernel_size, kernel_size),
    {
        MaxPool2d {
            kernel_size: (kernel_size, kernel_size),
            stride: (kernel_size, kernel_size),
        }
    }

    /// Windows of the given size at the given distance.
    pub fn with_stride(kernel_size: (usize, usize), stride: (usize, usize)) -> (r: Self)
        ensures
            r.kernel_size == kernel_size,
            r.stride == stride,
    {
        MaxPool2d { kernel_size, stride }
    }
}

impl Module for MaxPool2d {
    open spec fn param_models(&self) -> Seq<ParamModel> {
        seq![]
    }

    open spec fn param_names(&self) -> Seq<Seq<char>> {
        seq![]
    }

    open spec fn forward_model(&self, shape: Seq<usize>, state: InputState) -> Result<
        ProgModel,
        ErrorView,
    > {
        Ok(
            ProgModel::start(1).emit(
                OpModel::MaxPool2d { kernel: self.kernel_size, stride: self.stride },
                seq![0],
            ),
        )
    }

    open spec fn accepts(&self, shape: Seq<usize>) -> bool {
        true
    }

    open spec fn switched(&self, before: &Self, training: bool) -> bool {
        *self == *before
    }

    open spec fn recast(&self, before: &Self, target: Dtype) -> bool {
        *self == *before
    }

    fn takes(&self, shape: &[usize]) -> (r: bool) {
        true
    }

    fn forward(&self, shape: &[usize], state: &InputState) -> (r: Result<Program, ModuleError>) {
        let mut p = Program::start(1);
        p.emit1(Op::MaxPool2d { kernel: self.kernel_size, stride: self.stride }, 0);
        Ok(p)
    }

    fn parameters(&self) -> (r: Vec<Parameter>) {
        module::no_params()
    }

    fn named_parameters(&self) -> (r: Vec<(String, Parameter)>) {
        module::no_named()
    }

    fn train(&mut self) {
    }

    fn eval(&mut self) {
    }

    fn to_dtype(&mut self, target: Dtype) {
        assert(self.param_models() =~= module::cast_all(old(self).param_models(), target));
    }
}

/// The shapes of the input and of the parameters of a convolution.
pub open spec fn conv_env(c: Conv2d, x: Seq<usize>) -> Seq<Seq<usize>> {
    if c.bias is Some {
        seq![x, c.weight_shape(), seq![c.out_channels]]
    } else {
        seq![x, c.weight_shape()]
    }
}

proof fn lemma_conv_shape(
    c: Conv2d,
    p: ProgModel,
    env: Seq<Seq<usize>>,
    e: Seq<Seq<usize>>,
    x: nat,
    n: usize,
    h: usize,
    w: usize,
    oh: usize,
    ow: usize,
)
    requires
        p.shapes(env) == Some(e),
        x < e.len() && e[x as int] == seq![n, c.in_channels, h, w],
        1 < e.len() && e[1] == c.weight_shape(),
        c.bias is Some ==> 2 < e.len() && e[2] == seq![c.out_channels],
        oh == program::window_count(h as int, c.padding.0 as int, c.kernel_size.0 as int),
        ow == program::window_count(w as int, c.padding.1 as int, c.kernel_size.1 as int),
        oh > 0,
        ow > 0,
    ensures
        emit_conv(p, x, 1, c.bias is Some, c.padding).shapes(env) == Some(
            e.push(seq![n, c.out_channels, oh, ow]),
        ),
        e.len() == p.next(),
{
    let op = OpModel::Conv2d { pad_h: c.padding.0 as nat, pad_w: c.padding.1 as nat };
    let s = seq![n, c.out_channels, oh, ow];
    if c.bias is Some {
        program::lemma_emit3(p, env, e, op, x, 1, 2, s);
    } else {
        program::lemma_emit2(p, env, e, op, x, 1, s);
    }
}

/// A convolution gives `[N, C_out, H + 2 p - k + 1, W + 2 p - k + 1]`.
pub proof fn law_conv2d_shape(
    c: Conv2d,
    state: InputState,
    n: usize,
    h: usize,
    w: usize,
    oh: usize,
    ow: usize,
)
    requires
        oh == program::window_count(h as int, c.padding.0 as int, c.kernel_size.0 as int),
        ow == program::window_count(w as int, c.padding.1 as int, c.kernel_size.1 as int),
        oh > 0,
        ow > 0,
    ensures
        c.forward_model(seq![n, c.in_channels, h, w], state) matches Ok(p) && p.output_shape(
            conv_env(c, seq![n, c.in_channels, h, w]),
        ) == Some(seq![n, c.out_channels, oh, ow]),
{
    let env = conv_env(c, seq![n, c.in_channels, h, w]);
    let p = ProgModel::start(1 + c.count());
    assert(p.shapes(env) == Some(env));
    lemma_conv_shape(c, p, env, env, 0, n, h, w, oh, ow);
}

/// Padding by half of an odd kernel keeps the spatial sizes.
pub proof fn law_same_padding_keeps_size(
    c: Conv2d,
    state: InputState,
    n: usize,
    h: usize,
    w: usize,
)
    requires
        c.kernel_size.0 == 2 * c.padding.0 + 1,
        c.kernel_size.1 == 2 * c.padding.1 + 1,
        h > 0,
        w > 0,
    ensures
        c.forward_model(seq![n, c.in_channels, h, w], state) matches Ok(p) && p.output_shape(
            conv_env(c, seq![n, c.in_channels, h, w]),
        ) == Some(seq![n, c.out_channels, h, w]),
{
    law_conv2d_shape(c, state, n, h, w, h, w);
}

/// A one-dimensional convolution gives `[N, C_out, L + 2 p - k + 1]`.
pub proof fn law_conv1d_shape(c: Conv1d, n: usize, l: usize, ol: usize)
    requires
        c.wf(),
        ol == program::window_count(l as int, c.inner.padding.1 as int, c.kernel_size as int),
        ol > 0,
    ensures
        c.program(n, c.inner.in_channels, l).output_shape(
            conv_env(c.inner, seq![n, c.inner.in_channels, l]),
        ) == Some(seq![n, c.inner.out_channels, ol]),
{
    let i = c.inner;
    let ci = i.in_channels;
    let co = i.out_channels;
    let env = conv_env(i, seq![n, ci, l]);
    let p = ProgModel::start(1 + i.count());
    assert(p.shapes(env) == Some(env));
    program::lemma_products(n, ci, l, 0);
    program::lemma_products(n, ci, 1, l);
    assert(n * ci * 1 * l == n * ci * l) by (nonlinear_arith);
    let wide = seq![n, ci, 1usize, l];
    program::lemma_emit1(p, env, env, OpModel::Reshape(wide), 0, wide);
    let x = p.emit(OpModel::Reshape(wide), seq![0]);
    let e1 = env.push(wide);
    lemma_conv_shape(i, x, env, e1, x.result, n, 1, l, 1, ol);
    let y = emit_conv(x, x.result, 1, i.bias is Some, i.padding);
    let four = seq![n, co, 1usize, ol];
    let e2 = e1.push(four);
    program::lemma_products(n, co, ol, 0);
    program::lemma_products(n, co, 1, ol);
    assert(n * co * 1 * ol == n * co * ol) by (nonlinear_arith);
    let flat = seq![n, co, ol];
    assert(out_len(l as int, i.padding.1 as int, c.kernel_size as int) == ol);
    program::lemma_emit1(y, env, e2, OpModel::Reshape(flat), y.result, flat);
}

/// Square windows side by side divide the spatial sizes by the window size,
/// rounding down.
pub proof fn law_max_pool_divides(
    m: MaxPool2d,
    state: InputState,
    k: usize,
    n: usize,
    c: usize,
    h: usize,
    w: usize,
)
    requires
        0 < k <= h,
        k <= w,
        m.kernel_size == (k, k),
        m.stride == (k, k),
    ensures
        m.forward_model(seq![n, c, h, w], state) matches Ok(p) && p.output_shape(
            seq![seq![n, c, h, w]],
        ) == Some(seq![n, c, h / k, w / k]),
{
    let env = seq![seq![n, c, h, w]];
    let p = ProgModel::start(1);
    assert(p.shapes(env) == Some(env));
    assert((h - k) / (k as int) + 1 == h as int / k as int) by (nonlinear_arith)
        requires
            0 < k <= h,
    ;
    assert((w - k) / (k as int) + 1 == w as int / k as int) by (nonlinear_arith)
        requires
            0 < k <= w,
    ;
    let op = OpModel::MaxPool2d { kernel: m.kernel_size, stride: m.stride };
    program::lemma_emit1(p, env, env, op, 0, seq![n, c, h / k, w / k]);
}

/// The convolution computes, at output channel `o` and position `[y, z]` of
/// image `n`, the sum over the input channels `c` and the window `[i, j]` of
/// `x[n, c, y + i - p0, z + j - p1] * weight[o, c, i, j]`, where entries
/// outside the image count as zero, plus `bias[o]` where the layer has a bias.
/// The parameter named `weight` comes first behind the input, the one named
/// `bias` second.
pub proof fn law_conv2d_computes<T>(
    c: Conv2d,
    num: Num<T>,
    x: Dense<T>,
    weight: Dense<T>,
    bias: Dense<T>,
    state: InputState,
    n: int,
    o: int,
    y: int,
    z: int,
)
    requires
        x.shape.len() == 4,
        weight.shape == seq![c.out_channels, c.in_channels, c.kernel_size.0, c.kernel_size.1],
        0 <= n < x.shape[0],
        0 <= o < c.out_channels,
        0 <= y <= x.shape[2] + 2 * c.padding.0 - c.kernel_size.0 < usize::MAX,
        0 <= z <= x.shape[3] + 2 * c.padding.1 - c.kernel_size.1 < usize::MAX,
    ensures
        c.param_names()[0] == "weight"@,
        c.param_models()[0] == c.weight@,
        c.bias matches Some(b) ==> c.param_names()[1] == "bias"@ && c.param_models()[1] == b@,
        c.forward_model(x.shape, state) is Ok,
        ({
            let inputs = if c.bias is Some {
                seq![x, weight, bias]
            } else {
                seq![x, weight]
            };
            let r = meaning::computes(num, c.forward_model(x.shape, state)->Ok_0, inputs);
            let sum = meaning::convolved(
                num,
                x,
                weight,
                c.padding.0 as int,
                c.padding.1 as int,
                n,
                o,
                y,
                z,
            );
            r.at(meaning::ix4(n, o, y, z)) == if c.bias is Some {
                (num.add)(sum, bias.at(meaning::ix1(o)))
            } else {
                sum
            }
        }),
{
    let inputs = if c.bias is Some {
        seq![x, weight, bias]
    } else {
        seq![x, weight]
    };
    let p = ProgModel::start(1 + c.count());
    assert(meaning::values(num, p, inputs) == inputs);
    lemma_conv_value(num, c, p, inputs, 0, n, o, y, z);
}

/// What the convolution step computes.
proof fn lemma_conv_value<T>(
    num: Num<T>,
    c: Conv2d,
    p: ProgModel,
    inputs: Seq<Dense<T>>,
    x: nat,
    n: int,
    o: int,
    y: int,
    z: int,
)
    requires
        inputs.len() == p.inputs,
        ({
            let e = meaning::values(num, p, inputs);
            let a = e[x as int];
            &&& x < e.len()
            &&& 1 < e.len()
            &&& c.bias is Some ==> 2 < e.len()
            &&& a.shape.len() == 4
            &&& e[1].shape == c.weight_shape()
            &&& 0 <= n < a.shape[0]
            &&& 0 <= o < c.out_channels
            &&& 0 <= y <= a.shape[2] + 2 * c.padding.0 - c.kernel_size.0 < usize::MAX
            &&& 0 <= z <= a.shape[3] + 2 * c.padding.1 - c.kernel_size.1 < usize::MAX
        }),
    ensures
        ({
            let e = meaning::values(num, p, inputs);
            let a = e[x as int];
            let q = emit_conv(p, x, 1, c.bias is Some, c.padding);
            let r = meaning::computes(num, q, inputs);
            let sum = meaning::convolved(
                num,
                a,
                e[1],
                c.padding.0 as int,
                c.padding.1 as int,
                n,
                o,
                y,
                z,
            );
            &&& meaning::goes_on(num, p, q, inputs)
            &&& r.shape == seq![
                a.shape[0],
                c.out_channels,
                (a.shape[2] + 2 * c.padding.0 - c.kernel_size.0 + 1) as usize,
                (a.shape[3] + 2 * c.padding.1 - c.kernel_size.1 + 1) as usize,
            ]
            &&& r.at(meaning::ix4(n, o, y, z)) == if c.bias is Some {
                (num.add)(sum, e[2].at(meaning::ix1(o)))
            } else {
                sum
            }
        }),
{
    let e = meaning::values(num, p, inputs);
    let a = e[x as int];
    let op = OpModel::Conv2d { pad_h: c.padding.0 as nat, pad_w: c.padding.1 as nat };
    if c.bias is Some {
        meaning::lemma_step(num, p, inputs, op, seq![x, 1, 2]);
    } else {
        meaning::lemma_step(num, p, inputs, op, seq![x, 1]);
    }
    let q = emit_conv(p, x, 1, c.bias is Some, c.padding);
    let r = meaning::computes(num, q, inputs);
    let s = seq![
        a.shape[0],
        c.out_channels,
        (a.shape[2] + 2 * c.padding.0 - c.kernel_size.0 + 1) as usize,
        (a.shape[3] + 2 * c.padding.1 - c.kernel_size.1 + 1) as usize,
    ];
    assert(r.shape =~= s);
    let idx = meaning::ix4(n, o, y, z);
    assert(meaning::inside(s, idx));
    meaning::lemma_table::<T>(s, idx);
}

/// A tensor with every element negated.
pub open spec fn negated<T>(x: Dense<T>, neg: spec_fn(T) -> T) -> Dense<T> {
    Dense { shape: x.shape, data: x.data.map_values(neg) }
}

proof fn lemma_sum_negated<T>(
    num: Num<T>,
    neg: spec_fn(T) -> T,
    n: int,
    f: spec_fn(int) -> T,
    g: spec_fn(int) -> T,
)
    requires
        neg(num.zero) == num.zero,
        forall|a: T, b: T| #[trigger] (num.add)(neg(a), neg(b)) == neg((num.add)(a, b)),
        forall|i: int| 0 <= i < n ==> #[trigger] g(i) == neg(f(i)),
    ensures
        num.sum(n, g) == neg(num.sum(n, f)),
    decreases n,
{
    if n > 0 {
        lemma_sum_negated(num, neg, n - 1, f, g);
        assert(g(n - 1) == neg(f(n - 1)));
    }
}

/// The convolution is linear in the image: up to the bias, the negated image
/// gives the negated result.
pub proof fn law_conv2d_is_odd<T>(
    num: Num<T>,
    neg: spec_fn(T) -> T,
    x: Dense<T>,
    w: Dense<T>,
    pad_h: int,
    pad_w: int,
    n: int,
    o: int,
    y: int,
    z: int,
)
    requires
        neg(num.zero) == num.zero,
        forall|a: T, b: T| #[trigger] (num.add)(neg(a), neg(b)) == neg((num.add)(a, b)),
        forall|a: T, b: T| #[trigger] (num.mul)(neg(a), b) == neg((num.mul)(a, b)),
        x.shape.len() == 4,
        x.data.len() == init::product(x.shape),
        w.shape.len() == 4,
        w.shape[1] == x.shape[1],
        0 <= n < x.shape[0],
    ensures
        meaning::convolved(num, negated(x, neg), w, pad_h, pad_w, n, o, y, z) == neg(
            meaning::convolved(num, x, w, pad_h, pad_w, n, o, y, z),
        ),
{
    let m = negated(x, neg);
    let term = |u: Dense<T>, c: int, i: int, j: int|
        (num.mul)(
            meaning::padded(num, u, n, c, y + i - pad_h, z + j - pad_w),
            w.at(meaning::ix4(o, c, i, j)),
        );
    let row = |u: Dense<T>, c: int, i: int|
        num.sum(w.shape[3] as int, |j: int| term(u, c, i, j));
    let all = |u: Dense<T>, c: int| num.sum(w.shape[2] as int, |i: int| row(u, c, i));
    assert forall|u: Dense<T>|
        #[trigger] meaning::convolved(num, u, w, pad_h, pad_w, n, o, y, z) == num.sum(
            w.shape[1] as int,
            |c: int| all(u, c),
        ) by {
        let f = |c: int|
            num.sum(
                w.shape[2] as int,
                |i: int|
                    num.sum(
                        w.shape[3] as int,
                        |j: int|
                            (num.mul)(
                                meaning::padded(num, u, n, c, y + i - pad_h, z + j - pad_w),
                                w.at(meaning::ix4(o, c, i, j)),
                            ),
                    ),
            );
        let g = |c: int| all(u, c);
        assert forall|c: int| 0 <= c < w.shape[1] implies #[trigger] f(c) == g(c) by {
            let f1 = |i: int|
                num.sum(
                    w.shape[3] as int,
                    |j: int|
                        (num.mul)(
                            meaning::padded(num, u, n, c, y + i - pad_h, z + j - pad_w),
                            w.at(meaning::ix4(o, c, i, j)),
                        ),
                );
            let g1 = |i: int| row(u, c, i);
            assert forall|i: int| 0 <= i < w.shape[2] implies #[trigger] f1(i) == g1(i) by {
                let f2 = |j: int|
                    (num.mul)(
                        meaning::padded(num, u, n, c, y + i - pad_h, z + j - pad_w),
                        w.at(meaning::ix4(o, c, i, j)),
                    );
                let g2 = |j: int| term(u, c, i, j);
                meaning::lemma_sum_congruent(num, w.shape[3] as int, f2, g2);
            }
            meaning::lemma_sum_congruent(num, w.shape[2] as int, f1, g1);
        }
        meaning::lemma_sum_congruent(num, w.shape[1] as int, f, g);
    }
    let fa = |c: int| all(x, c);
    let ga = |c: int| all(m, c);
    assert forall|c: int| 0 <= c < w.shape[1] implies #[trigger] ga(c) == neg(fa(c)) by {
        let fr = |i: int| row(x, c, i);
        let gr = |i: int| row(m, c, i);
        assert forall|i: int| 0 <= i < w.shape[2] implies #[trigger] gr(i) == neg(fr(i)) by {
            let ft = |j: int| term(x, c, i, j);
            let gt = |j: int| term(m, c, i, j);
            assert forall|j: int| 0 <= j < w.shape[3] implies #[trigger] gt(j) == neg(ft(j)) by {
                let r = y + i - pad_h;
                let s = z + j - pad_w;
                if 0 <= r < x.shape[2] && 0 <= s < x.shape[3] {
                    let idx = meaning::ix4(n, c, r, s);
                    assert(meaning::inside(x.shape, idx));
                    meaning::lemma_ravel(x.shape, idx);
                    assert(m.at(idx) == neg(x.at(idx)));
                }
                assert(meaning::padded(num, m, n, c, r, s) == neg(
                    meaning::padded(num, x, n, c, r, s),
                ));
            }
            lemma_sum_negated(num, neg, w.shape[3] as int, ft, gt);
        }
        lemma_sum_negated(num, neg, w.shape[2] as int, fr, gr);
    }
    lemma_sum_negated(num, neg, w.shape[1] as int, fa, ga);
}

/// The one-dimensional convolution computes, at output channel `o` and
/// position `z` of sequence `n`, the sum over the input channels `k` and the
/// window `j` of `x[n, k, z + j - p] * weight[o, k, 0, j]`, where entries
/// outside the sequence count as zero, plus `bias[o]` where the layer has a
/// bias.
pub proof fn law_conv1d_computes<T>(
    c: Conv1d,
    num: Num<T>,
    x: Dense<T>,
    weight: Dense<T>,
    bias: Dense<T>,
    state: InputState,
    n: int,
    o: int,
    z: int,
)
    requires
        c.accepts(x.shape),
        x.shape.len() == 3,
        weight.shape == seq![c.inner.out_channels, c.inner.in_channels, 1usize, c.kernel_size],
        0 <= n < x.shape[0],
        0 <= o < c.inner.out_channels,
        0 <= z <= x.shape[2] + 2 * c.inner.padding.1 - c.kernel_size,
    ensures
        c.forward_model(x.shape, state) is Ok,
        ({
            let inputs = if c.inner.bias is Some {
                seq![x, weight, bias]
            } else {
                seq![x, weight]
            };
            let r = meaning::computes(num, c.forward_model(x.shape, state)->Ok_0, inputs);
            let sum = num.sum(
                c.inner.in_channels as int,
                |k: int|
                    num.sum(
                        1,
                        |i: int|
                            num.sum(
                                c.kernel_size as int,
                                |j: int|
                                    {
                                        let at = z + j - c.inner.padding.1;
                                        (num.mul)(
                                            if 0 <= at < x.shape[2] {
                                                x.at(meaning::ix3(n, k, at))
                                            } else {
                                                num.zero
                                            },
                                            weight.at(meaning::ix4(o, k, i, j)),
                                        )
                                    },
                            ),
                    ),
            );
            r.at(meaning::ix3(n, o, z)) == if c.inner.bias is Some {
                (num.add)(sum, bias.at(meaning::ix1(o)))
            } else {
                sum
            }
        }),
{
    let inputs = if c.inner.bias is Some {
        seq![x, weight, bias]
    } else {
        seq![x, weight]
    };
    let l = x.shape[2];
    let p = ProgModel::start(1 + c.inner.count());
    assert(meaning::values(num, p, inputs) == inputs);
    let wide = seq![x.shape[0], x.shape[1], 1usize, l];
    let px = p.emit(OpModel::Reshape(wide), seq![0]);
    meaning::lemma_step(num, p, inputs, OpModel::Reshape(wide), seq![0]);
    let x4 = meaning::computes(num, px, inputs);
    let e1 = meaning::values(num, px, inputs);
    assert(e1[1] == inputs[1]);
    assert(c.inner.bias is Some ==> e1[2] == inputs[2]);
    lemma_conv_value(num, c.inner, px, inputs, px.result, n, o, 0, z);
    let py = emit_conv(px, px.result, 1, c.inner.bias is Some, c.inner.padding);
    let y4 = meaning::computes(num, py, inputs);
    let ol = out_len(l as int, c.inner.padding.1 as int, c.kernel_size as int);
    let flat = seq![x.shape[0], c.inner.out_channels, ol];
    meaning::lemma_step(num, py, inputs, OpModel::Reshape(flat), seq![py.result]);
    meaning::lemma_ravel_short(flat, meaning::ix3(n, o, z));
    meaning::lemma_ravel_short(y4.shape, meaning::ix4(n, o, 0, z));
    assert((n * c.inner.out_channels + o) * 1 + 0 == n * c.inner.out_channels + o)
        by (nonlinear_arith);
    let r = meaning::computes(num, c.forward_model(x.shape, state)->Ok_0, inputs);
    assert(r.at(meaning::ix3(n, o, z)) == y4.at(meaning::ix4(n, o, 0, z)));
    let pad = c.inner.padding.1 as int;
    let f = |k: int|
        num.sum(
            1,
            |i: int|
                num.sum(
                    c.kernel_size as int,
                    |j: int|
                        (num.mul)(
                            meaning::padded(num, x4, n, k, 0 + i - 0, z + j - pad),
                            weight.at(meaning::ix4(o, k, i, j)),
                        ),
                ),
        );
    let g = |k: int|
        num.sum(
            1,
            |i: int|
                num.sum(
                    c.kernel_size as int,
                    |j: int|
                        {
                            let at = z + j - c.inner.padding.1;
                            (num.mul)(
                                if 0 <= at < x.shape[2] {
                                    x.at(meaning::ix3(n, k, at))
                                } else {
                                    num.zero
                                },
                                weight.at(meaning::ix4(o, k, i, j)),
                            )
                        },
                ),
        );
    assert forall|k: int| 0 <= k < c.inner.in_channels implies #[trigger] f(k) == g(k) by {
        let f1 = |i: int|
            num.sum(
                c.kernel_size as int,
                |j: int|
                    (num.mul)(
                        meaning::padded(num, x4, n, k, 0 + i - 0, z + j - pad),
                        weight.at(meaning::ix4(o, k, i, j)),
                    ),
            );
        let g1 = |i: int|
            num.sum(
                c.kernel_size as int,
                |j: int|
                    {
                        let at = z + j - c.inner.padding.1;
                        (num.mul)(
                            if 0 <= at < x.shape[2] {
                                x.at(meaning::ix3(n, k, at))
                            } else {
                                num.zero
                            },
                            weight.at(meaning::ix4(o, k, i, j)),
                        )
                    },
            );
        assert forall|i: int| 0 <= i < 1 implies #[trigger] f1(i) == g1(i) by {
            let f2 = |j: int|
                (num.mul)(
                    meaning::padded(num, x4, n, k, 0 + i - 0, z + j - pad),
                    weight.at(meaning::ix4(o, k, i, j)),
                );
            let g2 = |j: int|
                {
                    let at = z + j - c.inner.padding.1;
                    (num.mul)(
                        if 0 <= at < x.shape[2] {
                            x.at(meaning::ix3(n, k, at))
                        } else {
                            num.zero
                        },
                        weight.at(meaning::ix4(o, k, i, j)),
                    )
                };
            assert forall|j: int| 0 <= j < c.kernel_size implies #[trigger] f2(j) == g2(j) by {
                let at = z + j - pad;
                meaning::lemma_ravel_short(wide, meaning::ix4(n, k, 0, at));
                meaning::lemma_ravel_short(x.shape, meaning::ix3(n, k, at));
                assert((n * x.shape[1] + k) * 1 + 0 == n * x.shape[1] + k) by (nonlinear_arith);
            }
            meaning::lemma_sum_congruent(num, c.kernel_size as int, f2, g2);
        }
        meaning::lemma_sum_congruent(num, 1, f1, g1);
    }
    meaning::lemma_sum_congruent(num, c.inner.in_channels as int, f, g);
    assert(meaning::convolved(num, x4, weight, 0, pad, n, o, 0, z) == num.sum(
        c.inner.in_channels as int,
        f,
    ));
}

/// Max pooling gives, at `[y, z]`, the largest entry of the window that starts
/// at `[y * s0, z * s1]`.
pub proof fn law_max_pool_computes<T>(
    m: MaxPool2d,
    num: Num<T>,
    x: Dense<T>,
    state: InputState,
    n: int,
    c: int,
    y: int,
    z: int,
)
    requires
        x.shape.len() == 4,
        m.stride.0 > 0,
        m.stride.1 > 0,
        0 < m.kernel_size.0 <= x.shape[2],
        0 < m.kernel_size.1 <= x.shape[3],
        0 <= n < x.shape[0],
        0 <= c < x.shape[1],
        0 <= y <= (x.shape[2] - m.kernel_size.0) / (m.stride.0 as int),
        0 <= z <= (x.shape[3] - m.kernel_size.1) / (m.stride.1 as int),
    ensures
        m.forward_model(x.shape, state) is Ok,
        meaning::computes(num, m.forward_model(x.shape, state)->Ok_0, seq![x]).at(
            meaning::ix4(n, c, y, z),
        ) == num.largest(
            m.kernel_size.0 as int,
            |i: int|
                num.largest(
                    m.kernel_size.1 as int,
                    |j: int|
                        x.at(meaning::ix4(n, c, y * m.stride.0 + i, z * m.stride.1 + j)),
                ),
        ),
{
    let p = ProgModel::start(1);
    assert(meaning::values(num, p, seq![x]) == seq![x]);
    let op = OpModel::MaxPool2d { kernel: m.kernel_size, stride: m.stride };
    meaning::lemma_step(num, p, seq![x], op, seq![0]);
    assert((x.shape[2] - m.kernel_size.0) / (m.stride.0 as int) < usize::MAX) by (nonlinear_arith)
        requires
            0 < m.kernel_size.0 <= x.shape[2] <= usize::MAX,
            m.stride.0 > 0,
    ;
    assert((x.shape[3] - m.kernel_size.1) / (m.stride.1 as int) < usize::MAX) by (nonlinear_arith)
        requires
            0 < m.kernel_size.1 <= x.shape[3] <= usize::MAX,
            m.stride.1 > 0,
    ;
    let r = meaning::computes(num, m.forward_model(x.shape, state)->Ok_0, seq![x]);
    let s = r.shape;
    let idx = meaning::ix4(n, c, y, z);
    assert(meaning::inside(s, idx));
    meaning::lemma_table::<T>(s, idx);
    let f = |i: int|
        num.largest(
            m.kernel_size.1 as int,
            |j: int|
                x.at(meaning::ix4(idx[0], idx[1], idx[2] * m.stride.0 + i, idx[3] * m.stride.1 + j)),
        );
    let g = |i: int|
        num.largest(
            m.kernel_size.1 as int,
            |j: int| x.at(meaning::ix4(n, c, y * m.stride.0 + i, z * m.stride.1 + j)),
        );
    assert forall|i: int| 0 <= i < m.kernel_size.0 implies #[trigger] f(i) == g(i) by {
        let f1 = |j: int|
            x.at(meaning::ix4(idx[0], idx[1], idx[2] * m.stride.0 + i, idx[3] * m.stride.1 + j));
        let g1 = |j: int| x.at(meaning::ix4(n, c, y * m.stride.0 + i, z * m.stride.1 + j));
        meaning::lemma_largest_congruent(num, m.kernel_size.1 as int, f1, g1);
    }
    meaning::lemma_largest_congruent(num, m.kernel_size.0 as int, f, g);
}

} // verus!
