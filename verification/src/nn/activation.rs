//! Activations.
use crate::nn::meaning;
use crate::nn::meaning::Num;
use crate::nn::module;
use crate::nn::module::{ErrorView, InputState, Module, ModuleError};
use crate::nn::param::{Dtype, ParamModel, Parameter};
use crate::nn::program;
use crate::nn::program::{Dense, Op, OpModel, ProgModel, Program};
use vstd::prelude::*;

verus! {

/// `max(0, x)`, as a layer.
#[derive(Debug, Clone, Copy, Default)]
pub struct Relu;

/// `max(0, x)`, element by element on value `x` of a program.
pub fn relu(p: &mut Program, x: usize) -> (id: usize)
    requires
        old(p)@.next() <= usize::MAX,
    ensures
        final(p)@ == old(p)@.emit(OpModel::Relu, seq![x as nat]),
        id == final(p)@.result,
{
    p.emit1(Op::Relu, x)
}

impl Module for Relu {
    open spec fn param_models(&self) -> Seq<ParamModel> {
        seq![]
    }

    open spec fn param_names(&self) -> Seq<Seq<char>> {
        seq![]
    }

    open spec fn forward_model(&self, shape: Seq<usize>, state: InputState) -> Result<
        ProgModel,
        ErrorView,
    > {
        Ok(ProgModel::start(1).emit(OpModel::Relu, seq![0]))
    }

    open spec fn accepts(&self, shape: Seq<usize>) -> bool {
        true
    }

    open spec fn switched(&self, before: &Self, training: bool) -> bool {
        *self == *before
    }

    open spec fn recast(&self, before: &Self, target: Dtype) -> bool {
        *self == *before
    }

    fn takes(&self, shape: &[usize]) -> (r: bool) {
        true
    }

    fn forward(&self, shape: &[usize], state: &InputState) -> (r: Result<Program, ModuleError>) {
        let mut p = Program::start(1);
        relu(&mut p, 0);
        Ok(p)
    }

    fn parameters(&self) -> (r: Vec<Parameter>) {
        module::no_params()
    }

    fn named_parameters(&self) -> (r: Vec<(String, Parameter)>) {
        module::no_named()
    }

    fn train(&mut self) {
    }

    fn eval(&mut self) {
    }

    fn to_dtype(&mut self, target: Dtype) {
        assert(self.param_models() =~= module::cast_all(old(self).param_models(), target));
    }
}

/// `1 / (1 + exp(-x))`, as a layer.
#[derive(Debug, Clone, Copy, Default)]
pub struct Sigmoid;

/// `1 / (1 + exp(-x))`, element by element on value `x` of a program.
pub fn sigmoid(p: &mut Program, x: usize) -> (id: usize)
    requires
        old(p)@.next() <= usize::MAX,
    ensures
        final(p)@ == old(p)@.emit(OpModel::Sigmoid, seq![x as nat]),
        id == final(p)@.result,
{
    p.emit1(Op::Sigmoid, x)
}

impl Module for Sigmoid {
    open spec fn param_models(&self) -> Seq<ParamModel> {
        seq![]
    }

    open spec fn param_names(&self) -> Seq<Seq<char>> {
        seq![]
    }

    open spec fn forward_model(&self, shape: Seq<usize>, state: InputState) -> Result<
        ProgModel,
        ErrorView,
    > {
        Ok(ProgModel::start(1).emit(OpModel::Sigmoid, seq![0]))
    }

    open spec fn accepts(&self, shape: Seq<usize>) -> bool {
        true
    }

    open spec fn switched(&self, before: &Self, training: bool) -> bool {
        *self == *before
    }

    open spec fn recast(&self, before: &Self, target: Dtype) -> bool {
        *self == *before
    }

    fn takes(&self, shape: &[usize]) -> (r: bool) {
        true
    }

    fn forward(&self, shape: &[usize], state: &InputState) -> (r: Result<Program, ModuleError>) {
        let mut p = Program::start(1);
        sigmoid(&mut p, 0);
        Ok(p)
    }

    fn parameters(&self) -> (r: Vec<Parameter>) {
        module::no_params()
    }

    fn named_parameters(&self) -> (r: Vec<(String, Parameter)>) {
        module::no_named()
    }

    fn train(&mut self) {
    }

    fn eval(&mut self) {
    }

    fn to_dtype(&mut self, target: Dtype) {
        assert(self.param_models() =~= module::cast_all(old(self).param_models(), target));
    }
}

/// Hyperbolic tangent, as a layer.
#[derive(Debug, Clone, Copy, Default)]
pub struct Tanh;

/// Hyperbolic tangent, element by element on value `x` of a program.
pub fn tanh(p: &mut Program, x: usize) -> (id: usize)
    requires
        old(p)@.next() <= usize::MAX,
    ensures
        final(p)@ == old(p)@.emit(OpModel::Tanh, seq![x as nat]),
        id == final(p)@.result,
{
    p.emit1(Op::Tanh, x)
}

impl Module for Tanh {
    open spec fn param_models(&self) -> Seq<ParamModel> {
        seq![]
    }

    open spec fn param_names(&self) -> Seq<Seq<char>> {
        seq![]
    }

    open spec fn forward_model(&self, shape: Seq<usize>, state: InputState) -> Result<
        ProgModel,
        ErrorView,
    > {
        Ok(ProgModel::start(1).emit(OpModel::Tanh, seq![0]))
    }

    open spec fn accepts(&self, shape: Seq<usize>) -> bool {
        true
    }

    open spec fn switched(&self, before: &Self, training: bool) -> bool {
        *self == *before
    }

    open spec fn recast(&self, before: &Self, target: Dtype) -> bool {
        *self == *before
    }

    fn takes(&self, shape: &[usize]) -> (r: bool) {
        true
    }

    fn forward(&self, shape: &[usize], state: &InputState) -> (r: Result<Program, ModuleError>) {
        let mut p = Program::start(1);
        tanh(&mut p, 0);
        Ok(p)
    }

    fn parameters(&self) -> (r: Vec<Parameter>) {
        module::no_params()
    }

    fn named_parameters(&self) -> (r: Vec<(String, Parameter)>) {
        module::no_named()
    }

    fn train(&mut self) {
    }

    fn eval(&mut self) {
    }

    fn to_dtype(&mut self, target: Dtype) {
        assert(self.param_models() =~= module::cast_all(old(self).param_models(), target));
    }
}

/// Activations keep the shape.
pub proof fn law_activations_keep_shape(shape: Seq<usize>, state: InputState)
    ensures
        Relu.forward_model(shape, state) matches Ok(p) && p.output_shape(seq![shape]) == Some(
            shape,
        ),
        Sigmoid.forward_model(shape, state) matches Ok(p) && p.output_shape(seq![shape]) == Some(
            shape,
        ),
        Tanh.forward_model(shape, state) matches Ok(p) && p.output_shape(seq![shape]) == Some(
            shape,
        ),
{
    let env = seq![shape];
    let p = ProgModel::start(1);
    assert(p.shapes(env) == Some(env));
    program::lemma_emit1(p, env, env, OpModel::Relu, 0, shape);
    program::lemma_emit1(p, env, env, OpModel::Sigmoid, 0, shape);
    program::lemma_emit1(p, env, env, OpModel::Tanh, 0, shape);
}

/// The activation layers work element by element: `max(x, 0)`,
/// `1 / (1 + exp(-x))` and `tanh(x)`.
pub proof fn law_activations_compute<T>(
    r: Relu,
    s: Sigmoid,
    t: Tanh,
    num: Num<T>,
    x: Dense<T>,
    state: InputState,
    idx: Seq<int>,
)
    requires
        meaning::inside(x.shape, idx),
    ensures
        r.forward_model(x.shape, state) is Ok,
        s.forward_model(x.shape, state) is Ok,
        t.forward_model(x.shape, state) is Ok,
        ({
            let y = meaning::computes(num, r.forward_model(x.shape, state)->Ok_0, seq![x]);
            y.shape == x.shape && y.at(idx) == (num.max)(x.at(idx), num.zero)
        }),
        ({
            let y = meaning::computes(num, s.forward_model(x.shape, state)->Ok_0, seq![x]);
            y.shape == x.shape && y.at(idx) == (num.div)(
                num.one,
                (num.add)(num.one, (num.exp)((num.sub)(num.zero, x.at(idx)))),
            )
        }),
        ({
            let y = meaning::computes(num, t.forward_model(x.shape, state)->Ok_0, seq![x]);
            y.shape == x.shape && y.at(idx) == (num.tanh)(x.at(idx))
        }),
{
    let p = ProgModel::start(1);
    assert(meaning::values(num, p, seq![x]) == seq![x]);
    meaning::lemma_step(num, p, seq![x], OpModel::Relu, seq![0]);
    meaning::lemma_step(num, p, seq![x], OpModel::Sigmoid, seq![0]);
    meaning::lemma_step(num, p, seq![x], OpModel::Tanh, seq![0]);
    meaning::lemma_table::<T>(x.shape, idx);
}

} // verus!
