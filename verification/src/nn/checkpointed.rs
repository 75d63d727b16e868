//! Layers whose activations are computed again for the backward pass.
use crate::nn::module;
use crate::nn::module::{ErrorView, InputState, Module, ModuleError};
use crate::nn::param::{Dtype, ParamModel, Parameter};
use crate::nn::program::{ProgModel, Program};
use vstd::prelude::*;

verus! {

/// A layer whose forward program the host runs without keeping activations,
/// and runs once more on the way back.
///
/// Switching between training and evaluation mode does not reach the inner
/// layer: it is switched before it is wrapped.
#[derive(Debug)]
pub struct Checkpointed<M> {
    pub inner: M,
}

impl<M: Module> Checkpointed<M> {
    /// Wraps a layer.
    pub fn new(m: M) -> (r: Self)
        ensures
            r.inner == m,
    {
        Checkpointed { inner: m }
    }

    /// The wrapped layer.
    pub fn inner(&self) -> (r: &M)
        ensures
            *r == self.inner,
    {
        &self.inner
    }
}

impl<M: Module> Module for Checkpointed<M> {
    open spec fn param_models(&self) -> Seq<ParamModel> {
        self.inner.param_models()
    }

    open spec fn param_names(&self) -> Seq<Seq<char>> {
        module::prefixed("ckpt."@, self.inner.param_names())
    }

    open spec fn forward_model(&self, shape: Seq<usize>, state: InputState) -> Result<
        ProgModel,
        ErrorView,
    > {
        self.inner.forward_model(shape, state)
    }

    open spec fn accepts(&self, shape: Seq<usize>) -> bool {
        self.inner.accepts(shape)
    }

    open spec fn switched(&self, before: &Self, training: bool) -> bool {
        *self == *before
    }

    open spec fn recast(&self, before: &Self, target: Dtype) -> bool {
        self.inner.recast(&before.inner, target)
    }

    fn takes(&self, shape: &[usize]) -> (r: bool) {
        self.inner.takes(shape)
    }

    fn forward(&self, shape: &[usize], state: &InputState) -> (r: Result<Program, ModuleError>) {
        self.inner.forward(shape, state)
    }

    fn parameters(&self) -> (r: Vec<Parameter>) {
        self.inner.parameters()
    }

    fn named_parameters(&self) -> (r: Vec<(String, Parameter)>) {
        let mut v = module::no_named();
        module::extend_named(&mut v, "ckpt.", &self.inner.named_parameters());
        assert(module::names(v@) =~= self.param_names());
        assert(module::named_models(v@) =~= self.param_models());
        v
    }

    fn train(&mut self) {
    }

    fn eval(&mut self) {
    }

    fn to_dtype(&mut self, target: Dtype) {
        self.inner.to_dtype(target);
    }
}

/// A checkpointed layer computes what the layer inside it computes.
pub proof fn law_checkpoint_is_transparent<M: Module>(
    c: Checkpointed<M>,
    shape: Seq<usize>,
    state: InputState,
)
    ensures
        c.forward_model(shape, state) == c.inner.forward_model(shape, state),
        c.param_models() == c.inner.param_models(),
{
}

/// Every parameter name carries the prefix.
pub proof fn law_checkpoint_names_are_prefixed<M: Module>(c: Checkpointed<M>, i: int)
    requires
        0 <= i < c.param_names().len(),
    ensures
        "ckpt."@.is_prefix_of(c.param_names()[i]),
{
    assert("ckpt."@ =~= c.param_names()[i].take("ckpt."@.len() as int));
}

} // verus!
