//! Affine layers.
use crate::nn::init;
use crate::nn::meaning;
use crate::nn::module;
use crate::nn::module::{module_error, ErrorView, InputState, Module, ModuleError};
use crate::nn::param;
use crate::nn::param::{copy_shape, Dtype, ParamModel, Parameter};
use crate::nn::program;
use crate::nn::program::{Dense, Op, OpModel, ProgModel, Program};
use crate::text;
use crate::text::Text;
use vstd::prelude::*;
use vstd::slice::slice_subrange;

verus! {

/// `y = x @ weight + bias`, on inputs with any leading axes.
#[derive(Debug)]
pub struct Linear {
    /// `[in_features, out_features]`.
    pub weight: Parameter,
    /// `[out_features]`.
    pub bias: Option<Parameter>,
    pub in_features: usize,
    pub out_features: usize,
}

/// Why an input of the given shape is refused, or `None`.
pub open spec fn linear_error(in_features: usize, shape: Seq<usize>) -> Option<ErrorView> {
    if shape.len() < 2 {
        Some(
            ErrorView {
                op: "Linear::forward"@,
                message: "input rank must be >= 2, got shape "@ + text::shape_text(shape),
            },
        )
    } else if shape.last() != in_features {
        Some(
            ErrorView {
                op: "Linear::forward"@,
                message: "last dim "@ + text::decimal(shape.last() as nat) + " != in_features "@
                    + text::decimal(in_features as nat),
            },
        )
    } else {
        None
    }
}

/// Adds a bias where there is one.
pub open spec fn emit_bias(p: ProgModel, bias: Option<nat>) -> ProgModel {
    match bias {
        Some(b) => p.emit(OpModel::AddBias, seq![p.result, b]),
        None => p,
    }
}

/// The leading axes of a shape folded into one, as a machine integer.
pub open spec fn leading(shape: Seq<usize>) -> usize {
    init::product(shape.drop_last()) as usize
}

/// The steps of an affine layer on value `x`: directly on matrices, otherwise
/// with the leading axes folded into one and unfolded again.
pub open spec fn emit_linear(
    p: ProgModel,
    x: nat,
    weight: nat,
    bias: Option<nat>,
    shape: Seq<usize>,
    in_features: usize,
    out_features: usize,
) -> ProgModel {
    if shape.len() == 2 {
        emit_bias(p.emit(OpModel::MatMul, seq![x, weight]), bias)
    } else {
        let p1 = p.emit(OpModel::Reshape(seq![leading(shape), in_features]), seq![x]);
        let p2 = emit_bias(p1.emit(OpModel::MatMul, seq![p1.result, weight]), bias);
        p2.emit(OpModel::Reshape(shape.drop_last().push(out_features)), seq![p2.result])
    }
}

impl Linear {
    /// The value number of the bias when the parameters start at `first`.
    pub open spec fn bias_id(self, first: nat) -> Option<nat> {
        match self.bias {
            Some(_) => Some(first + 1),
            None => None,
        }
    }

    /// Number of parameters.
    pub open spec fn count(self) -> nat {
        if self.bias is Some { 2 } else { 1 }
    }

    /// A layer with zero bias and noise weights within `1 / sqrt(in_features)`.
    pub fn new(in_features: usize, out_features: usize) -> (r: Self)
        requires
            in_features * out_features <= usize::MAX,
        ensures
            r.weight@ == ParamModel::noise_matrix(in_features, out_features, in_features),
            r.bias is Some,
            r.bias->0@ == ParamModel::zeros(out_features),
            r.in_features == in_features,
            r.out_features == out_features,
    {
        Linear {
            weight: Parameter::noise_matrix(in_features, out_features, in_features),
            bias: Some(Parameter::zeros(out_features)),
            in_features,
            out_features,
        }
    }

    /// A layer without bias.
    pub fn no_bias(in_features: usize, out_features: usize) -> (r: Self)
        requires
            in_features * out_features <= usize::MAX,
        ensures
            r.weight@ == ParamModel::noise_matrix(in_features, out_features, in_features),
            r.bias is None,
            r.in_features == in_features,
            r.out_features == out_features,
    {
        let mut l = Linear::new(in_features, out_features);
        l.bias = None;
        l
    }

    /// Input feature count.
    pub fn in_features(&self) -> (r: usize)
        ensures
            r == self.in_features,
    {
        self.in_features
    }

    /// Output feature count.
    pub fn out_features(&self) -> (r: usize)
        ensures
            r == self.out_features,
    {
        self.out_features
    }

    /// Emits the layer on value `x` of the given shape; the parameters are the
    /// values from `first` on. An input that is refused emits nothing.
    pub fn emit(&self, p: &mut Program, x: usize, first: usize, shape: &[usize]) -> (r: Result<
        usize,
        ModuleError,
    >)
        requires
            old(p)@.next() + 4 <= usize::MAX,
            first < usize::MAX,
            linear_error(self.in_features, shape@) is None && shape@.len() > 2
                ==> init::products_fit(shape@.drop_last()),
        ensures
            match r {
                Ok(id) => {
                    &&& linear_error(self.in_features, shape@) is None
                    &&& final(p)@ == emit_linear(
                        old(p)@,
                        x as nat,
                        first as nat,
                        self.bias_id(first as nat),
                        shape@,
                        self.in_features,
                        self.out_features,
                    )
                    &&& id == final(p)@.result
                },
                Err(e) => {
                    &&& linear_error(self.in_features, shape@) == Some(e@)
                    &&& final(p)@ == old(p)@
                },
            },
    {
        let rank: usize = shape.len();
        if rank < 2 {
            return Err(
                module_error(
                    "Linear::forward",
                    Text::start("input rank must be >= 2, got shape ").shape(shape),
                ),
            );
        }
        let last: usize = shape[rank - 1];
        if last != self.in_features {
            return Err(
                module_error(
                    "Linear::forward",
                    Text::start("last dim ").num(last).lit(" != in_features ").num(
                        self.in_features,
                    ),
                ),
            );
        }
        if rank == 2 {
            let xw: usize = p.emit2(Op::MatMul, x, first);
            return match &self.bias {
                Some(_) => Ok(p.emit2(Op::AddBias, xw, first + 1)),
                None => Ok(xw),
            };
        }
        let lead = slice_subrange(shape, 0, rank - 1);
        assert(lead@ =~= shape@.drop_last());
        assert(lead@.skip(0) =~= lead@);
        let folded: usize = init::product_from(lead, 0);
        let mut flat: Vec<usize> = Vec::new();
        flat.push(folded);
        flat.push(self.in_features);
        assert(flat@ =~= seq![leading(shape@), self.in_features]);
        let x_flat: usize = p.emit1(Op::Reshape(flat), x);
        let xw: usize = p.emit2(Op::MatMul, x_flat, first);
        let y_flat: usize = match &self.bias {
            Some(_) => p.emit2(Op::AddBias, xw, first + 1),
            None => xw,
        };
        let mut out_shape = copy_shape(lead);
        out_shape.push(self.out_features);
        assert(out_shape@ =~= shape@.drop_last().push(self.out_features));
        Ok(p.emit1(Op::Reshape(out_shape), y_flat))
    }
}

/// The parameters of an affine layer.
pub open spec fn linear_params(l: Linear) -> Seq<ParamModel> {
    match l.bias {
        Some(b) => seq![l.weight@, b@],
        None => seq![l.weight@],
    }
}

/// The parameter names of a layer with a weight and perhaps a bias.
pub open spec fn weight_names(with_bias: bool) -> Seq<Seq<char>> {
    if with_bias {
        seq!["weight"@, "bias"@]
    } else {
        seq!["weight"@]
    }
}

/// Copies of a weight and perhaps a bias.
pub fn weight_and_bias(weight: &Parameter, bias: &Option<Parameter>) -> (r: Vec<Parameter>)
    ensures
        module::models(r@) == match *bias {
            Some(b) => seq![weight@, b@],
            None => seq![weight@],
        },
{
    let mut v = module::no_params();
    module::push_param(&mut v, weight.copy());
    assert(module::models(v@) =~= seq![weight@]);
    match bias {
        Some(b) => {
            module::push_param(&mut v, b.copy());
            assert(module::models(v@) =~= seq![weight@, b@]);
        },
        None => {},
    }
    v
}

/// Named copies of a weight and perhaps a bias.
pub fn named_weight_and_bias(weight: &Parameter, bias: &Option<Parameter>) -> (r: Vec<
    (String, Parameter),
>)
    ensures
        module::names(r@) == weight_names(*bias is Some),
        module::named_models(r@) == match *bias {
            Some(b) => seq![weight@, b@],
            None => seq![weight@],
        },
{
    let mut v = module::no_named();
    module::push_named(&mut v, "weight", weight.copy());
    assert(module::names(v@) =~= seq!["weight"@]);
    assert(module::named_models(v@) =~= seq![weight@]);
    match bias {
        Some(b) => {
            module::push_named(&mut v, "bias", b.copy());
            assert(module::names(v@) =~= seq!["weight"@, "bias"@]);
            assert(module::named_models(v@) =~= seq![weight@, b@]);
        },
        None => {},
    }
    v
}

impl Module for Linear {
    open spec fn param_models(&self) -> Seq<ParamModel> {
        linear_params(*self)
    }

    open spec fn param_names(&self) -> Seq<Seq<char>> {
        weight_names(self.bias is Some)
    }

    open spec fn forward_model(&self, shape: Seq<usize>, state: InputState) -> Result<
        ProgModel,
        ErrorView,
    > {
        module::outcome(
            linear_error(self.in_features, shape),
            emit_linear(
                ProgModel::start(1 + self.count()),
                0,
                1,
                self.bias_id(1),
                shape,
                self.in_features,
                self.out_features,
            ),
        )
    }

    open spec fn accepts(&self, shape: Seq<usize>) -> bool {
        linear_error(self.in_features, shape) is None && shape.len() > 2 ==> init::products_fit(
            shape.drop_last(),
        )
    }

    open spec fn switched(&self, before: &Self, training: bool) -> bool {
        *self == *before
    }

    open spec fn recast(&self, before: &Self, target: Dtype) -> bool {
        &&& self.weight@ == before.weight@.cast(target)
        &&& param::option_recast(self.bias, before.bias, target)
        &&& *self == (Linear { weight: self.weight, bias: self.bias, ..*before })
    }

    fn takes(&self, shape: &[usize]) -> (r: bool) {
        let rank: usize = shape.len();
        if rank <= 2 || shape[rank - 1] != self.in_features {
            return true;
        }
        let lead = slice_subrange(shape, 0, rank - 1);
        assert(lead@ =~= shape@.drop_last());
        init::check_products(lead)
    }

    fn forward(&self, shape: &[usize], state: &InputState) -> (r: Result<Program, ModuleError>) {
        let mut p = Program::start(
            match &self.bias {
                Some(_) => 3,
                None => 2,
            },
        );
        match self.emit(&mut p, 0, 1, shape) {
            Ok(_) => Ok(p),
            Err(e) => Err(e),
        }
    }

    fn parameters(&self) -> (r: Vec<Parameter>) {
        weight_and_bias(&self.weight, &self.bias)
    }

    fn named_parameters(&self) -> (r: Vec<(String, Parameter)>) {
        named_weight_and_bias(&self.weight, &self.bias)
    }

    fn train(&mut self) {
    }

    fn eval(&mut self) {
    }

    fn to_dtype(&mut self, target: Dtype) {
        self.weight.cast(target);
        match self.bias.take() {
            Some(b) => {
                let mut c = b;
                c.cast(target);
                self.bias = Some(c);
            },
            None => {},
        }
        assert(self.param_models() =~= module::cast_all(old(self).param_models(), target));
    }
}

/// Appending an affine layer to a well-shaped program keeps it well shaped,
/// keeps the shapes of all earlier values, and gives the input's leading axes
/// with `out_features` behind them.
pub proof fn lemma_emit_linear_shape(
    p: ProgModel,
    env: Seq<Seq<usize>>,
    e: Seq<Seq<usize>>,
    x: nat,
    weight: nat,
    bias: Option<nat>,
    shape: Seq<usize>,
    in_features: usize,
    out_features: usize,
) -> (f: Seq<Seq<usize>>)
    requires
        p.shapes(env) == Some(e),
        linear_error(in_features, shape) is None,
        shape.len() > 2 ==> init::products_fit(shape.drop_last()),
        x < e.len(),
        weight < e.len(),
        e[x as int] == shape,
        e[weight as int] == seq![in_features, out_features],
        bias matches Some(b) ==> b < e.len() && e[b as int] == seq![out_features],
    ensures
        ({
            let q = emit_linear(p, x, weight, bias, shape, in_features, out_features);
            &&& q.shapes(env) == Some(f)
            &&& q.result < f.len()
            &&& f[q.result as int] == shape.drop_last().push(out_features)
            &&& f.len() >= e.len()
            &&& forall|i: int| 0 <= i < e.len() ==> #[trigger] f[i] == e[i]
            &&& q.inputs == p.inputs
        }),
{
    program::lemma_infer_len(p.steps, env);
    if shape.len() == 2 {
        let s = seq![shape[0], out_features];
        program::lemma_emit2(p, env, e, OpModel::MatMul, x, weight, s);
        let p1 = p.emit(OpModel::MatMul, seq![x, weight]);
        let e1 = e.push(s);
        assert(shape.drop_last().push(out_features) =~= s);
        match bias {
            Some(b) => {
                assert(s.last() == out_features);
                program::lemma_emit2(p1, env, e1, OpModel::AddBias, p1.result, b, s);
                e1.push(s)
            },
            None => e1,
        }
    } else {
        let lead = leading(shape);
        let n = init::product(shape.drop_last());
        assert(shape.drop_last().take(shape.len() - 1) =~= shape.drop_last());
        init::lemma_product_nonneg(shape.drop_last());
        assert(lead == n);
        program::lemma_products(lead, in_features, 0, 0);
        program::lemma_products(lead, out_features, 0, 0);
        let s1 = seq![lead, in_features];
        program::lemma_emit1(p, env, e, OpModel::Reshape(s1), x, s1);
        let p1 = p.emit(OpModel::Reshape(s1), seq![x]);
        let e1 = e.push(s1);
        let s2 = seq![lead, out_features];
        program::lemma_emit2(p1, env, e1, OpModel::MatMul, p1.result, weight, s2);
        let p2 = p1.emit(OpModel::MatMul, seq![p1.result, weight]);
        let e2 = e1.push(s2);
        let out = shape.drop_last().push(out_features);
        assert(out.drop_last() =~= shape.drop_last());
        assert(init::product(out) == n * out_features);
        match bias {
            Some(b) => {
                assert(s2.last() == out_features);
                program::lemma_emit2(p2, env, e2, OpModel::AddBias, p2.result, b, s2);
                let p3 = p2.emit(OpModel::AddBias, seq![p2.result, b]);
                let e3 = e2.push(s2);
                program::lemma_emit1(p3, env, e3, OpModel::Reshape(out), p3.result, out);
                e3.push(out)
            },
            None => {
                program::lemma_emit1(p2, env, e2, OpModel::Reshape(out), p2.result, out);
                e2.push(out)
            },
        }
    }
}

/// The shapes of a layer's input and parameters.
pub open spec fn linear_env(l: Linear, shape: Seq<usize>) -> Seq<Seq<usize>> {
    if l.bias is Some {
        seq![shape, seq![l.in_features, l.out_features], seq![l.out_features]]
    } else {
        seq![shape, seq![l.in_features, l.out_features]]
    }
}

/// `[*, in_features]` goes to `[*, out_features]`: every accepted input keeps
/// its leading axes.
pub proof fn law_linear_shape(l: Linear, shape: Seq<usize>, state: InputState)
    requires
        l.accepts(shape),
        linear_error(l.in_features, shape) is None,
    ensures
        l.forward_model(shape, state) matches Ok(p) && p.output_shape(linear_env(l, shape)) == Some(
            shape.drop_last().push(l.out_features),
        ),
{
    let p = ProgModel::start(1 + l.count());
    let env = linear_env(l, shape);
    assert(p.shapes(env) == Some(env));
    let f = lemma_emit_linear_shape(
        p,
        env,
        env,
        0,
        1,
        l.bias_id(1),
        shape,
        l.in_features,
        l.out_features,
    );
}

/// Inputs that agree up to how their leading axes are cut run the same
/// matrix product: the folded operand is the same.
pub proof fn law_linear_folds_leading_axes(
    l: Linear,
    s: Seq<usize>,
    t: Seq<usize>,
    state: InputState,
)
    requires
        s.len() > 2,
        t.len() > 2,
        linear_error(l.in_features, s) is None,
        linear_error(l.in_features, t) is None,
        init::product(s.drop_last()) == init::product(t.drop_last()),
    ensures
        l.forward_model(s, state)->Ok_0.steps.drop_last() == l.forward_model(
            t,
            state,
        )->Ok_0.steps.drop_last(),
{
    let p = ProgModel::start(1 + l.count());
    let p1 = p.emit(OpModel::Reshape(seq![leading(s), l.in_features]), seq![0]);
    let p2 = emit_bias(p1.emit(OpModel::MatMul, seq![p1.result, 1]), l.bias_id(1));
    assert(l.forward_model(s, state)->Ok_0.steps.drop_last() =~= p2.steps);
    assert(l.forward_model(t, state)->Ok_0.steps.drop_last() =~= p2.steps);
}

/// The affine part of a layer: the product with the weight, plus the bias
/// where there is one.
pub open spec fn affine<T>(
    means: spec_fn(OpModel, Seq<Dense<T>>) -> Dense<T>,
    x: Dense<T>,
    params: Seq<Dense<T>>,
) -> Dense<T> {
    let xw = means(OpModel::MatMul, seq![x, params[0]]);
    if params.len() == 2 {
        means(OpModel::AddBias, seq![xw, params[1]])
    } else {
        xw
    }
}

/// The steps of the affine part compute it.
proof fn lemma_affine_value<T>(
    means: spec_fn(OpModel, Seq<Dense<T>>) -> Dense<T>,
    p: ProgModel,
    env: Seq<Dense<T>>,
    x: nat,
    bias: Option<nat>,
    params: Seq<Dense<T>>,
)
    requires
        env.len() == p.inputs,
        env.len() == 1 + params.len(),
        params.len() == if bias is Some { 2int } else { 1 },
        bias matches Some(b) ==> b == 2,
        env.skip(1) == params,
        forall|i: int|
            0 <= i < env.len() ==> p.values(means, env)[i] == #[trigger] env[i],
        x < p.values(means, env).len(),
    ensures
        ({
            let q = emit_bias(p.emit(OpModel::MatMul, seq![x, 1]), bias);
            &&& q.value(means, env) == affine(means, p.values(means, env)[x as int], params)
            &&& q.inputs == p.inputs
            &&& q.result == q.next() - 1
        }),
{
    let e = p.values(means, env);
    program::lemma_evaluate_len(means, p.steps, env);
    assert(env[1] == env.skip(1)[0]);
    let p1 = p.emit(OpModel::MatMul, seq![x, 1]);
    program::lemma_evaluate_emit(means, p, env, OpModel::MatMul, seq![x, 1]);
    assert(program::pick_values(e, seq![x, 1]) =~= seq![e[x as int], params[0]]);
    let e1 = p1.values(means, env);
    match bias {
        Some(b) => {
            assert(env[2] == env.skip(1)[1]);
            program::lemma_evaluate_emit(means, p1, env, OpModel::AddBias, seq![p1.result, b]);
            assert(program::pick_values(e1, seq![p1.result, b]) =~= seq![
                e1[p1.result as int],
                params[1],
            ]);
        },
        None => {},
    }
}

/// On an input with more than one leading axis, the layer gives the elements
/// that it gives on the matrix of the same elements whose rows are the leading
/// axes folded into one: only the shape differs. This holds whatever the
/// product and the bias compute, as long as a reshape keeps the elements.
pub proof fn law_linear_agrees_with_rank_two<T>(
    l: Linear,
    means: spec_fn(OpModel, Seq<Dense<T>>) -> Dense<T>,
    x: Dense<T>,
    flat: Dense<T>,
    params: Seq<Dense<T>>,
    state: InputState,
)
    requires
        program::reshapes(means),
        linear_error(l.in_features, x.shape) is None,
        x.shape.len() > 2,
        flat.shape == seq![leading(x.shape), l.in_features],
        flat.data == x.data,
        params.len() == l.count(),
    ensures
        linear_error(l.in_features, flat.shape) is None,
        ({
            let y = l.forward_model(x.shape, state)->Ok_0.value(means, seq![x] + params);
            let z = l.forward_model(flat.shape, state)->Ok_0.value(means, seq![flat] + params);
            &&& l.forward_model(x.shape, state) is Ok
            &&& l.forward_model(flat.shape, state) is Ok
            &&& y.data == z.data
            &&& y.shape == x.shape.drop_last().push(l.out_features)
            &&& l.forward_model(flat.shape, state)->Ok_0.output_shape(linear_env(l, flat.shape))
                == Some(seq![leading(x.shape), l.out_features])
        }),
{
    let p = ProgModel::start(1 + l.count());
    let bias = l.bias_id(1);
    let env2 = seq![flat] + params;
    assert(env2.skip(1) =~= params);
    assert(p.values(means, env2) == env2);
    lemma_affine_value(means, p, env2, 0, bias, params);
    let env = seq![x] + params;
    assert(env.skip(1) =~= params);
    let to = seq![leading(x.shape), l.in_features];
    program::lemma_evaluate_emit(means, p, env, OpModel::Reshape(to), seq![0]);
    assert(program::pick_values(env, seq![0]) =~= seq![x]);
    let p1 = p.emit(OpModel::Reshape(to), seq![0]);
    assert(p1.values(means, env)[p1.result as int] == flat);
    lemma_affine_value(means, p1, env, p1.result, bias, params);
    let p2 = emit_bias(p1.emit(OpModel::MatMul, seq![p1.result, 1]), bias);
    let back = x.shape.drop_last().push(l.out_features);
    program::lemma_evaluate_len(means, p2.steps, env);
    program::lemma_evaluate_emit(means, p2, env, OpModel::Reshape(back), seq![p2.result]);
    let e2 = p2.values(means, env);
    assert(program::pick_values(e2, seq![p2.result]) =~= seq![e2[p2.result as int]]);
    law_linear_shape(l, flat.shape, state);
    assert(flat.shape.drop_last().push(l.out_features) =~= seq![leading(x.shape), l.out_features]);
}

/// `y = sum(x1 @ weight * x2) + bias` per row.
#[derive(Debug)]
pub struct Bilinear {
    /// `[in1_features, in2_features]`.
    pub weight: Parameter,
    /// `[1]`.
    pub bias: Option<Parameter>,
    pub in1_features: usize,
    pub in2_features: usize,
}

/// The steps of a bilinear layer on values 0 and 1 with the weight at 2: the
/// product of the first input with the weight, times the second input, its
/// mean along the last axis times the number of features, plus the bias.
pub open spec fn emit_bilinear(b: Bilinear, x2_rank: nat) -> ProgModel {
    let p0 = ProgModel::start(if b.bias is Some { 4 } else { 3 });
    let p1 = p0.emit(OpModel::MatMul, seq![0, 2]);
    let p2 = p1.emit(OpModel::Mul, seq![p1.result, 1]);
    let last = (if x2_rank > 2 { x2_rank } else { 2 }) - 1;
    let p3 = p2.emit(OpModel::MeanDim(last as nat), seq![p2.result]);
    let p4 = p3.emit(OpModel::Count(b.in2_features as nat), seq![]);
    let p5 = p4.emit(OpModel::Mul, seq![p3.result, p4.result]);
    emit_bias(p5, if b.bias is Some { Some(3nat) } else { None })
}

impl Bilinear {
    /// A layer with zero bias and noise weights within one over the root of
    /// the larger input size.
    pub fn new(in1_features: usize, in2_features: usize) -> (r: Self)
        requires
            in1_features * in2_features <= usize::MAX,
        ensures
            r.weight@ == ParamModel::noise_matrix(
                in1_features,
                in2_features,
                if in1_features > in2_features { in1_features } else { in2_features },
            ),
            r.bias is Some,
            r.bias->0@ == ParamModel::zeros(1),
            r.in1_features == in1_features,
            r.in2_features == in2_features,
    {
        let fan: usize = if in1_features > in2_features {
            in1_features
        } else {
            in2_features
        };
        Bilinear {
            weight: Parameter::noise_matrix(in1_features, in2_features, fan),
            bias: Some(Parameter::zeros(1)),
            in1_features,
            in2_features,
        }
    }

    /// Plans the layer on two inputs, the second of the given rank.
    pub fn forward2(&self, x2_rank: usize) -> (p: Program)
        ensures
            p@ == emit_bilinear(*self, x2_rank as nat),
    {
        let mut p = Program::start(
            match &self.bias {
                Some(_) => 4,
                None => 3,
            },
        );
        let xw: usize = p.emit2(Op::MatMul, 0, 2);
        let prod: usize = p.emit2(Op::Mul, xw, 1);
        let rank: usize = if x2_rank > 2 {
            x2_rank
        } else {
            2
        };
        let summed: usize = p.emit1(Op::MeanDim(rank - 1), prod);
        let scale: usize = p.emit0(Op::Count(self.in2_features));
        let out: usize = p.emit2(Op::Mul, summed, scale);
        match &self.bias {
            Some(_) => {
                let _ = p.emit2(Op::AddBias, out, 3);
            },
            None => {},
        }
        p
    }

    /// First input size.
    pub fn in1_features(&self) -> (r: usize)
        ensures
            r == self.in1_features,
    {
        self.in1_features
    }

    /// Second input size.
    pub fn in2_features(&self) -> (r: usize)
        ensures
            r == self.in2_features,
    {
        self.in2_features
    }
}

/// A batch of `rows` pairs gives `[rows, 1]`.
pub proof fn law_bilinear_shape(b: Bilinear, rows: usize)
    ensures
        emit_bilinear(b, 2).output_shape(
            if b.bias is Some {
                seq![
                    seq![rows, b.in1_features],
                    seq![rows, b.in2_features],
                    seq![b.in1_features, b.in2_features],
                    seq![1usize],
                ]
            } else {
                seq![
                    seq![rows, b.in1_features],
                    seq![rows, b.in2_features],
                    seq![b.in1_features, b.in2_features],
                ]
            },
        ) == Some(seq![rows, 1usize]),
{
    let x1 = seq![rows, b.in1_features];
    let x2 = seq![rows, b.in2_features];
    let w = seq![b.in1_features, b.in2_features];
    let one = seq![rows, 1usize];
    let env = if b.bias is Some { seq![x1, x2, w, seq![1usize]] } else { seq![x1, x2, w] };
    let p0 = ProgModel::start(if b.bias is Some { 4 } else { 3 });
    assert(p0.shapes(env) == Some(env));
    program::lemma_emit2(p0, env, env, OpModel::MatMul, 0, 2, x2);
    let p1 = p0.emit(OpModel::MatMul, seq![0, 2]);
    let e1 = env.push(x2);
    program::lemma_broadcasts(x2);
    program::lemma_emit2(p1, env, e1, OpModel::Mul, p1.result, 1, x2);
    let p2 = p1.emit(OpModel::Mul, seq![p1.result, 1]);
    let e2 = e1.push(x2);
    assert(x2.update(1, 1) =~= one);
    program::lemma_emit1(p2, env, e2, OpModel::MeanDim(1), p2.result, one);
    let p3 = p2.emit(OpModel::MeanDim(1), seq![p2.result]);
    let e3 = e2.push(one);
    let n = b.in2_features as nat;
    program::lemma_emit0(p3, env, e3, OpModel::Count(n), seq![]);
    let p4 = p3.emit(OpModel::Count(n), seq![]);
    let e4 = e3.push(seq![]);
    program::lemma_broadcasts(one);
    program::lemma_emit2(p4, env, e4, OpModel::Mul, p3.result, p4.result, one);
    let p5 = p4.emit(OpModel::Mul, seq![p3.result, p4.result]);
    let e5 = e4.push(one);
    if b.bias is Some {
        assert(one.last() == 1);
        program::lemma_emit2(p5, env, e5, OpModel::AddBias, p5.result, 3, one);
    }
}

/// The steps of the affine part of a layer on the matrix `x`.
proof fn lemma_affine_steps<T>(
    num: meaning::Num<T>,
    p: ProgModel,
    inputs: Seq<Dense<T>>,
    x: nat,
    weight: nat,
    bias: Option<nat>,
)
    requires
        inputs.len() == p.inputs,
        x < meaning::values(num, p, inputs).len(),
        weight < meaning::values(num, p, inputs).len(),
        bias matches Some(b) ==> b < meaning::values(num, p, inputs).len(),
        meaning::values(num, p, inputs)[x as int].shape.len() == 2,
        meaning::values(num, p, inputs)[weight as int].shape.len() == 2,
        meaning::values(num, p, inputs)[x as int].shape[1] == meaning::values(
            num,
            p,
            inputs,
        )[weight as int].shape[0],
    ensures
        ({
            let e = meaning::values(num, p, inputs);
            let q = emit_bias(p.emit(OpModel::MatMul, seq![x, weight]), bias);
            let y = meaning::computes(num, q, inputs);
            let s = seq![e[x as int].shape[0], e[weight as int].shape[1]];
            &&& meaning::goes_on(num, p, q, inputs)
            &&& y.shape == s
            &&& forall|i: int, j: int| #![trigger y.at(meaning::ix2(i, j))]
                0 <= i < s[0] && 0 <= j < s[1] ==> y.at(meaning::ix2(i, j)) == meaning::affine_at(
                    num,
                    e[x as int],
                    e[weight as int],
                    match bias {
                        Some(b) => Some(e[b as int]),
                        None => None,
                    },
                    seq![i],
                    j,
                )
        }),
{
    let e = meaning::values(num, p, inputs);
    let a = e[x as int];
    let w = e[weight as int];
    let p1 = p.emit(OpModel::MatMul, seq![x, weight]);
    meaning::lemma_step(num, p, inputs, OpModel::MatMul, seq![x, weight]);
    let z = meaning::computes(num, p1, inputs);
    let s = seq![a.shape[0], w.shape[1]];
    assert(z.shape == s);
    let q = emit_bias(p1, bias);
    if bias is Some {
        let b = bias->0;
        meaning::lemma_step(num, p1, inputs, OpModel::AddBias, seq![p1.result, b]);
        meaning::lemma_goes_on(num, p, p1, q, inputs);
        assert(meaning::values(num, p1, inputs)[b as int] == e[b as int]);
    }
    let y = meaning::computes(num, q, inputs);
    let bv = match bias {
        Some(b) => Some(e[b as int]),
        None => None,
    };
    assert forall|i: int, j: int| #![trigger y.at(meaning::ix2(i, j))] 0 <= i < s[0] && 0 <= j
        < s[1] implies y.at(meaning::ix2(i, j)) == meaning::affine_at(num, a, w, bv, seq![i], j) by {
        let idx = meaning::ix2(i, j);
        assert(meaning::inside(s, idx));
        meaning::lemma_table::<T>(s, idx);
        let f = |l: int| (num.mul)(a.at(meaning::ix2(idx[0], l)), w.at(meaning::ix2(l, idx[1])));
        let g = |l: int| (num.mul)(a.at(meaning::ix1(i).push(l)), w.at(meaning::ix2(l, j)));
        assert forall|l: int| 0 <= l < w.shape[0] implies #[trigger] f(l) == g(l) by {
            assert(seq![i].push(l) =~= seq![i, l]);
        }
        meaning::lemma_sum_congruent(num, w.shape[0] as int, f, g);
        assert(z.at(idx) == num.sum(w.shape[0] as int, f));
        assert(idx.last() == j);
    }
}

/// What the steps of an affine layer compute: at each leading index, entry `j`
/// is the sum over the features of the input times the weight, plus the bias.
pub proof fn lemma_emit_linear_value<T>(
    num: meaning::Num<T>,
    p: ProgModel,
    inputs: Seq<Dense<T>>,
    x: nat,
    weight: nat,
    bias: Option<nat>,
    shape: Seq<usize>,
    in_features: usize,
    out_features: usize,
)
    requires
        inputs.len() == p.inputs,
        linear_error(in_features, shape) is None,
        shape.len() > 2 ==> init::products_fit(shape.drop_last()),
        x < meaning::values(num, p, inputs).len(),
        weight < meaning::values(num, p, inputs).len(),
        bias matches Some(b) ==> b < meaning::values(num, p, inputs).len(),
        meaning::values(num, p, inputs)[x as int].shape == shape,
        meaning::values(num, p, inputs)[weight as int].shape == seq![in_features, out_features],
    ensures
        ({
            let e = meaning::values(num, p, inputs);
            let q = emit_linear(p, x, weight, bias, shape, in_features, out_features);
            let y = meaning::computes(num, q, inputs);
            &&& meaning::goes_on(num, p, q, inputs)
            &&& y.shape == shape.drop_last().push(out_features)
            &&& forall|lead: Seq<int>, j: int| #![trigger y.at(lead.push(j))]
                meaning::inside(shape.drop_last(), lead) && 0 <= j < out_features ==> y.at(
                    lead.push(j),
                ) == meaning::affine_at(
                    num,
                    e[x as int],
                    e[weight as int],
                    match bias {
                        Some(b) => Some(e[b as int]),
                        None => None,
                    },
                    lead,
                    j,
                )
        }),
{
    let e = meaning::values(num, p, inputs);
    let a = e[x as int];
    let w = e[weight as int];
    let q = emit_linear(p, x, weight, bias, shape, in_features, out_features);
    let y = meaning::computes(num, q, inputs);
    let bv = match bias {
        Some(b) => Some(e[b as int]),
        None => None,
    };
    let ls = shape.drop_last();
    if shape.len() == 2 {
        lemma_affine_steps(num, p, inputs, x, weight, bias);
        assert(y.shape =~= ls.push(out_features));
        assert forall|lead: Seq<int>, j: int| #![trigger y.at(lead.push(j))] meaning::inside(
            ls,
            lead,
        ) && 0 <= j < out_features implies y.at(lead.push(j)) == meaning::affine_at(
            num,
            a,
            w,
            bv,
            lead,
            j,
        ) by {
            assert(lead =~= seq![lead[0]]);
            assert(lead.push(j) =~= seq![lead[0], j]);
            assert(y.at(meaning::ix2(lead[0], j)) == meaning::affine_at(num, a, w, bv, seq![lead[0]], j));
        }
    } else {
        let n = leading(shape);
        assert(ls.take(ls.len() as int) =~= ls);
        init::lemma_product_nonneg(ls);
        assert(n == init::product(ls));
        let to = seq![n, in_features];
        let p1 = p.emit(OpModel::Reshape(to), seq![x]);
        meaning::lemma_step(num, p, inputs, OpModel::Reshape(to), seq![x]);
        let flat = meaning::computes(num, p1, inputs);
        let e1 = meaning::values(num, p1, inputs);
        assert(e1[p1.result as int] == flat);
        assert(e1[weight as int] == w);
        lemma_affine_steps(num, p1, inputs, p1.result, weight, bias);
        let p2 = emit_bias(p1.emit(OpModel::MatMul, seq![p1.result, weight]), bias);
        let z = meaning::computes(num, p2, inputs);
        let back = ls.push(out_features);
        meaning::lemma_step(num, p2, inputs, OpModel::Reshape(back), seq![p2.result]);
        meaning::lemma_goes_on(num, p, p1, p2, inputs);
        meaning::lemma_goes_on(num, p, p2, q, inputs);
        assert(y.data == z.data);
        assert(bias is Some ==> e1[bias->0 as int] == e[bias->0 as int]);
        assert forall|lead: Seq<int>, j: int| #![trigger y.at(lead.push(j))] meaning::inside(
            ls,
            lead,
        ) && 0 <= j < out_features implies y.at(lead.push(j)) == meaning::affine_at(
            num,
            a,
            w,
            bv,
            lead,
            j,
        ) by {
            let r = meaning::ravel(ls, lead);
            meaning::lemma_ravel(ls, lead);
            assert(back.drop_last() =~= ls);
            assert(lead.push(j).drop_last() =~= lead);
            assert(meaning::ravel(back, lead.push(j)) == r * out_features + j);
            meaning::lemma_ravel_short(z.shape, seq![r, j]);
            assert(y.at(lead.push(j)) == z.at(meaning::ix2(r, j)));
            let f = |l: int| (num.mul)(flat.at(meaning::ix1(r).push(l)), w.at(meaning::ix2(l, j)));
            let g = |l: int| (num.mul)(a.at(lead.push(l)), w.at(meaning::ix2(l, j)));
            assert forall|l: int| 0 <= l < w.shape[0] implies #[trigger] f(l) == g(l) by {
                assert(seq![r].push(l) =~= seq![r, l]);
                meaning::lemma_ravel_short(to, seq![r, l]);
                assert(lead.push(l).drop_last() =~= lead);
                assert(meaning::ravel(shape, lead.push(l)) == r * in_features + l);
            }
            meaning::lemma_sum_congruent(num, w.shape[0] as int, f, g);
            assert(z.at(meaning::ix2(r, j)) == meaning::affine_at(num, flat, w, bv, seq![r], j));
        }
    }
}

/// The layer computes `y = x W + b` on the features: at each leading index,
/// entry `j` is the sum over the input features `l` of `x[.., l] * W[l, j]`,
/// plus `b[j]` where the layer has a bias. The parameter named `weight` comes
/// first behind the input, the one named `bias` second.
pub proof fn law_linear_computes<T>(
    l: Linear,
    num: meaning::Num<T>,
    x: Dense<T>,
    weight: Dense<T>,
    bias: Dense<T>,
    state: InputState,
    lead: Seq<int>,
    j: int,
)
    requires
        l.accepts(x.shape),
        x.shape.len() >= 2,
        x.shape.last() == l.in_features,
        weight.shape == seq![l.in_features, l.out_features],
        bias.shape == seq![l.out_features],
        meaning::inside(x.shape.drop_last(), lead),
        0 <= j < l.out_features,
    ensures
        l.param_names()[0] == "weight"@,
        l.param_models()[0] == l.weight@,
        l.bias matches Some(c) ==> l.param_names()[1] == "bias"@ && l.param_models()[1] == c@,
        l.forward_model(x.shape, state) is Ok,
        ({
            let inputs = if l.bias is Some {
                seq![x, weight, bias]
            } else {
                seq![x, weight]
            };
            let y = meaning::computes(num, l.forward_model(x.shape, state)->Ok_0, inputs);
            let xw = num.sum(
                l.in_features as int,
                |i: int| (num.mul)(x.at(lead.push(i)), weight.at(meaning::ix2(i, j))),
            );
            &&& y.shape == x.shape.drop_last().push(l.out_features)
            &&& y.at(lead.push(j)) == if l.bias is Some {
                (num.add)(xw, bias.at(meaning::ix1(j)))
            } else {
                xw
            }
        }),
{
    let inputs = if l.bias is Some {
        seq![x, weight, bias]
    } else {
        seq![x, weight]
    };
    let p = ProgModel::start(1 + l.count());
    assert(meaning::values(num, p, inputs) == inputs);
    lemma_emit_linear_value(
        num,
        p,
        inputs,
        0,
        1,
        l.bias_id(1),
        x.shape,
        l.in_features,
        l.out_features,
    );
}

/// The bilinear layer computes, for row `i`, the mean over the features `k` of
/// `(x1 W)[i, k] * x2[i, k]`, times the number of features, plus the bias where
/// there is one: the form `x1 W x2^T` of the two rows.
pub proof fn law_bilinear_computes<T>(
    b: Bilinear,
    num: meaning::Num<T>,
    x1: Dense<T>,
    x2: Dense<T>,
    weight: Dense<T>,
    bias: Dense<T>,
    rows: usize,
    i: int,
)
    requires
        x1.shape == seq![rows, b.in1_features],
        x2.shape == seq![rows, b.in2_features],
        weight.shape == seq![b.in1_features, b.in2_features],
        0 <= i < rows,
    ensures
        ({
            let inputs = if b.bias is Some {
                seq![x1, x2, weight, bias]
            } else {
                seq![x1, x2, weight]
            };
            let r = meaning::computes(num, emit_bilinear(b, 2), inputs);
            let form = (num.mul)(
                num.mean(
                    b.in2_features as int,
                    |k: int|
                        (num.mul)(
                            num.sum(
                                b.in1_features as int,
                                |l: int|
                                    (num.mul)(
                                        x1.at(meaning::ix2(i, l)),
                                        weight.at(meaning::ix2(l, k)),
                                    ),
                            ),
                            x2.at(meaning::ix2(i, k)),
                        ),
                ),
                (num.of_nat)(b.in2_features as nat),
            );
            &&& r.shape == seq![rows, 1usize]
            &&& r.at(meaning::ix2(i, 0)) == if b.bias is Some {
                (num.add)(form, bias.at(meaning::ix1(0)))
            } else {
                form
            }
        }),
{
    let inputs = if b.bias is Some {
        seq![x1, x2, weight, bias]
    } else {
        seq![x1, x2, weight]
    };
    let n2 = b.in2_features;
    let wide = seq![rows, n2];
    let one = seq![rows, 1usize];
    let p0 = ProgModel::start(if b.bias is Some { 4 } else { 3 });
    assert(meaning::values(num, p0, inputs) == inputs);
    let p1 = p0.emit(OpModel::MatMul, seq![0, 2]);
    meaning::lemma_step(num, p0, inputs, OpModel::MatMul, seq![0, 2]);
    let v1 = meaning::computes(num, p1, inputs);
    assert(v1.shape =~= wide);
    let p2 = p1.emit(OpModel::Mul, seq![p1.result, 1]);
    meaning::lemma_step(num, p1, inputs, OpModel::Mul, seq![p1.result, 1]);
    meaning::lemma_goes_on(num, p0, p1, p2, inputs);
    assert(meaning::values(num, p1, inputs)[1] == x2);
    let v2 = meaning::computes(num, p2, inputs);
    program::lemma_broadcasts(wide);
    assert(v2.shape == wide);
    let p3 = p2.emit(OpModel::MeanDim(1), seq![p2.result]);
    meaning::lemma_step(num, p2, inputs, OpModel::MeanDim(1), seq![p2.result]);
    meaning::lemma_goes_on(num, p0, p2, p3, inputs);
    let v3 = meaning::computes(num, p3, inputs);
    assert(v3.shape =~= one);
    let p4 = p3.emit(OpModel::Count(n2 as nat), seq![]);
    meaning::lemma_step(num, p3, inputs, OpModel::Count(n2 as nat), seq![]);
    meaning::lemma_goes_on(num, p0, p3, p4, inputs);
    let v4 = meaning::computes(num, p4, inputs);
    let p5 = p4.emit(OpModel::Mul, seq![p3.result, p4.result]);
    meaning::lemma_step(num, p4, inputs, OpModel::Mul, seq![p3.result, p4.result]);
    meaning::lemma_goes_on(num, p0, p4, p5, inputs);
    assert(meaning::values(num, p4, inputs)[p3.result as int] == v3);
    let v5 = meaning::computes(num, p5, inputs);
    program::lemma_broadcasts(one);
    assert(v4.shape =~= seq![]);
    assert(v5.shape == one);
    if b.bias is Some {
        meaning::lemma_step(num, p5, inputs, OpModel::AddBias, seq![p5.result, 3]);
        assert(meaning::values(num, p5, inputs)[3] == bias);
    }
    let at = meaning::ix2(i, 0);
    assert(meaning::inside(one, at));
    meaning::lemma_table::<T>(one, at);
    meaning::lemma_broadcast_same(one, at);
    assert(at.last() == 0);
    let f = |k: int| v2.at(at.update(1, k));
    let g = |k: int|
        (num.mul)(
            num.sum(
                b.in1_features as int,
                |l: int| (num.mul)(x1.at(meaning::ix2(i, l)), weight.at(meaning::ix2(l, k))),
            ),
            x2.at(meaning::ix2(i, k)),
        );
    assert forall|k: int| 0 <= k < n2 implies #[trigger] f(k) == g(k) by {
        let u = meaning::ix2(i, k);
        assert(at.update(1, k) =~= u);
        assert(meaning::inside(wide, u));
        meaning::lemma_table::<T>(wide, u);
        meaning::lemma_broadcast_same(wide, u);
        let a = |l: int| (num.mul)(x1.at(meaning::ix2(u[0], l)), weight.at(meaning::ix2(l, u[1])));
        let c = |l: int| (num.mul)(x1.at(meaning::ix2(i, l)), weight.at(meaning::ix2(l, k)));
        meaning::lemma_sum_congruent(num, b.in1_features as int, a, c);
        assert(v1.at(u) == num.sum(b.in1_features as int, a));
    }
    meaning::lemma_sum_congruent(num, n2 as int, f, g);
    assert(v3.at(at) == num.mean(n2 as int, f));
    assert(v4.at(meaning::broadcast_index(v4.shape, at)) == v4.data[0]);
}

} // verus!
