//! One type for all layers, for containers that mix them.
use crate::nn::activation::{Relu, Sigmoid, Tanh};
use crate::nn::attention::{MultiHeadAttention, SingleHeadAttention};
use crate::nn::conv::{Conv1d, Conv2d, MaxPool2d};
use crate::nn::embedding::Embedding;
use crate::nn::linear::Linear;
use crate::nn::norm::{BatchNorm2d, LayerNorm, RMSNorm};
use crate::nn::pool::CrossAttentionPool;
use crate::nn::module;
use crate::nn::module::{ErrorView, InputState, Module, ModuleError};
use crate::nn::param::{Dtype, ParamModel, Parameter};
use crate::nn::program::{ProgModel, Program};
use vstd::prelude::*;

verus! {

/// Any layer.
#[derive(Debug)]
pub enum Layer {
    Linear(Linear),
    Relu(Relu),
    Sigmoid(Sigmoid),
    Tanh(Tanh),
    Conv1d(Conv1d),
    Conv2d(Conv2d),
    MaxPool2d(MaxPool2d),
    RMSNorm(RMSNorm),
    LayerNorm(LayerNorm),
    BatchNorm2d(BatchNorm2d),
    Embedding(Embedding),
    SingleHeadAttention(SingleHeadAttention),
    MultiHeadAttention(MultiHeadAttention),
    CrossAttentionPool(CrossAttentionPool),
}

impl Module for Layer {
    open spec fn param_models(&self) -> Seq<ParamModel> {
        match self {
            Layer::Linear(m) => m.param_models(),
            Layer::Relu(m) => m.param_models(),
            Layer::Sigmoid(m) => m.param_models(),
            Layer::Tanh(m) => m.param_models(),
            Layer::Conv1d(m) => m.param_models(),
            Layer::Conv2d(m) => m.param_models(),
            Layer::MaxPool2d(m) => m.param_models(),
            Layer::RMSNorm(m) => m.param_models(),
            Layer::LayerNorm(m) => m.param_models(),
            Layer::BatchNorm2d(m) => m.param_models(),
            Layer::Embedding(m) => m.param_models(),
            Layer::SingleHeadAttention(m) => m.param_models(),
            Layer::MultiHeadAttention(m) => m.param_models(),
            Layer::CrossAttentionPool(m) => m.param_models(),
        }
    }

    open spec fn param_names(&self) -> Seq<Seq<char>> {
        match self {
            Layer::Linear(m) => m.param_names(),
            Layer::Relu(m) => m.param_names(),
            Layer::Sigmoid(m) => m.param_names(),
            Layer::Tanh(m) => m.param_names(),
            Layer::Conv1d(m) => m.param_names(),
            Layer::Conv2d(m) => m.param_names(),
            Layer::MaxPool2d(m) => m.param_names(),
            Layer::RMSNorm(m) => m.param_names(),
            Layer::LayerNorm(m) => m.param_names(),
            Layer::BatchNorm2d(m) => m.param_names(),
            Layer::Embedding(m) => m.param_names(),
            Layer::SingleHeadAttention(m) => m.param_names(),
            Layer::MultiHeadAttention(m) => m.param_names(),
            Layer::CrossAttentionPool(m) => m.param_names(),
        }
    }

    open spec fn forward_model(&self, shape: Seq<usize>, state: InputState) -> Result<
        ProgModel,
        ErrorView,
    > {
        match self {
            Layer::Linear(m) => m.forward_model(shape, state),
            Layer::Relu(m) => m.forward_model(shape, state),
            Layer::Sigmoid(m) => m.forward_model(shape, state),
            Layer::Tanh(m) => m.forward_model(shape, state),
            Layer::Conv1d(m) => m.forward_model(shape, state),
            Layer::Conv2d(m) => m.forward_model(shape, state),
            Layer::MaxPool2d(m) => m.forward_model(shape, state),
            Layer::RMSNorm(m) => m.forward_model(shape, state),
            Layer::LayerNorm(m) => m.forward_model(shape, state),
            Layer::BatchNorm2d(m) => m.forward_model(shape, state),
            Layer::Embedding(m) => m.forward_model(shape, state),
            Layer::SingleHeadAttention(m) => m.forward_model(shape, state),
            Layer::MultiHeadAttention(m) => m.forward_model(shape, state),
            Layer::CrossAttentionPool(m) => m.forward_model(shape, state),
        }
    }

    open spec fn accepts(&self, shape: Seq<usize>) -> bool {
        match self {
            Layer::Linear(m) => m.accepts(shape),
            Layer::Relu(m) => m.accepts(shape),
            Layer::Sigmoid(m) => m.accepts(shape),
            Layer::Tanh(m) => m.accepts(shape),
            Layer::Conv1d(m) => m.accepts(shape),
            Layer::Conv2d(m) => m.accepts(shape),
            Layer::MaxPool2d(m) => m.accepts(shape),
            Layer::RMSNorm(m) => m.accepts(shape),
            Layer::LayerNorm(m) => m.accepts(shape),
            Layer::BatchNorm2d(m) => m.accepts(shape),
            Layer::Embedding(m) => m.accepts(shape),
            Layer::SingleHeadAttention(m) => m.accepts(shape),
            Layer::MultiHeadAttention(m) => m.accepts(shape),
            Layer::CrossAttentionPool(m) => m.accepts(shape),
        }
    }

    open spec fn switched(&self, before: &Self, training: bool) -> bool {
        match (self, before) {
            (Layer::Linear(m), Layer::Linear(b)) => m.switched(b, training),
            (Layer::Relu(m), Layer::Relu(b)) => m.switched(b, training),
            (Layer::Sigmoid(m), Layer::Sigmoid(b)) => m.switched(b, training),
            (Layer::Tanh(m), Layer::Tanh(b)) => m.switched(b, training),
            (Layer::Conv1d(m), Layer::Conv1d(b)) => m.switched(b, training),
            (Layer::Conv2d(m), Layer::Conv2d(b)) => m.switched(b, training),
            (Layer::MaxPool2d(m), Layer::MaxPool2d(b)) => m.switched(b, training),
            (Layer::RMSNorm(m), Layer::RMSNorm(b)) => m.switched(b, training),
            (Layer::LayerNorm(m), Layer::LayerNorm(b)) => m.switched(b, training),
            (Layer::BatchNorm2d(m), Layer::BatchNorm2d(b)) => m.switched(b, training),
            (Layer::Embedding(m), Layer::Embedding(b)) => m.switched(b, training),
            (Layer::SingleHeadAttention(m), Layer::SingleHeadAttention(b)) => m.switched(b, training),
            (Layer::MultiHeadAttention(m), Layer::MultiHeadAttention(b)) => m.switched(b, training),
            (Layer::CrossAttentionPool(m), Layer::CrossAttentionPool(b)) => m.switched(b, training),
            _ => false,
        }
    }

    open spec fn recast(&self, before: &Self, target: Dtype) -> bool {
        match (self, before) {
            (Layer::Linear(m), Layer::Linear(b)) => m.recast(b, target),
            (Layer::Relu(m), Layer::Relu(b)) => m.recast(b, target),
            (Layer::Sigmoid(m), Layer::Sigmoid(b)) => m.recast(b, target),
            (Layer::Tanh(m), Layer::Tanh(b)) => m.recast(b, target),
            (Layer::Conv1d(m), Layer::Conv1d(b)) => m.recast(b, target),
            (Layer::Conv2d(m), Layer::Conv2d(b)) => m.recast(b, target),
            (Layer::MaxPool2d(m), Layer::MaxPool2d(b)) => m.recast(b, target),
            (Layer::RMSNorm(m), Layer::RMSNorm(b)) => m.recast(b, target),
            (Layer::LayerNorm(m), Layer::LayerNorm(b)) => m.recast(b, target),
            (Layer::BatchNorm2d(m), Layer::BatchNorm2d(b)) => m.recast(b, target),
            (Layer::Embedding(m), Layer::Embedding(b)) => m.recast(b, target),
            (Layer::SingleHeadAttention(m), Layer::SingleHeadAttention(b)) => m.recast(b, target),
            (Layer::MultiHeadAttention(m), Layer::MultiHeadAttention(b)) => m.recast(b, target),
            (Layer::CrossAttentionPool(m), Layer::CrossAttentionPool(b)) => m.recast(b, target),
            _ => false,
        }
    }

    fn takes(&self, shape: &[usize]) -> (r: bool) {
        match self {
            Layer::Linear(m) => m.takes(shape),
            Layer::Relu(m) => m.takes(shape),
            Layer::Sigmoid(m) => m.takes(shape),
            Layer::Tanh(m) => m.takes(shape),
            Layer::Conv1d(m) => m.takes(shape),
            Layer::Conv2d(m) => m.takes(shape),
            Layer::MaxPool2d(m) => m.takes(shape),
            Layer::RMSNorm(m) => m.takes(shape),
            Layer::LayerNorm(m) => m.takes(shape),
            Layer::BatchNorm2d(m) => m.takes(shape),
            Layer::Embedding(m) => m.takes(shape),
            Layer::SingleHeadAttention(m) => m.takes(shape),
            Layer::MultiHeadAttention(m) => m.takes(shape),
            Layer::CrossAttentionPool(m) => m.takes(shape),
        }
    }

    fn forward(&self, shape: &[usize], state: &InputState) -> (r: Result<Program, ModuleError>) {
        match self {
            Layer::Linear(m) => Module::forward(m, shape, state),
            Layer::Relu(m) => Module::forward(m, shape, state),
            Layer::Sigmoid(m) => Module::forward(m, shape, state),
            Layer::Tanh(m) => Module::forward(m, shape, state),
            Layer::Conv1d(m) => Module::forward(m, shape, state),
            Layer::Conv2d(m) => Module::forward(m, shape, state),
            Layer::MaxPool2d(m) => Module::forward(m, shape, state),
            Layer::RMSNorm(m) => Module::forward(m, shape, state),
            Layer::LayerNorm(m) => Module::forward(m, shape, state),
            Layer::BatchNorm2d(m) => Module::forward(m, shape, state),
            Layer::Embedding(m) => Module::forward(m, shape, state),
            Layer::SingleHeadAttention(m) => Module::forward(m, shape, state),
            Layer::MultiHeadAttention(m) => Module::forward(m, shape, state),
            Layer::CrossAttentionPool(m) => Module::forward(m, shape, state),
        }
    }

    fn parameters(&self) -> (r: Vec<Parameter>) {
        match self {
            Layer::Linear(m) => m.parameters(),
            Layer::Relu(m) => m.parameters(),
            Layer::Sigmoid(m) => m.parameters(),
            Layer::Tanh(m) => m.parameters(),
            Layer::Conv1d(m) => m.parameters(),
            Layer::Conv2d(m) => m.parameters(),
            Layer::MaxPool2d(m) => m.parameters(),
            Layer::RMSNorm(m) => m.parameters(),
            Layer::LayerNorm(m) => m.parameters(),
            Layer::BatchNorm2d(m) => m.parameters(),
            Layer::Embedding(m) => m.parameters(),
            Layer::SingleHeadAttention(m) => m.parameters(),
            Layer::MultiHeadAttention(m) => m.parameters(),
            Layer::CrossAttentionPool(m) => m.parameters(),
        }
    }

    fn named_parameters(&self) -> (r: Vec<(String, Parameter)>) {
        match self {
            Layer::Linear(m) => m.named_parameters(),
            Layer::Relu(m) => m.named_parameters(),
            Layer::Sigmoid(m) => m.named_parameters(),
            Layer::Tanh(m) => m.named_parameters(),
            Layer::Conv1d(m) => m.named_parameters(),
            Layer::Conv2d(m) => m.named_parameters(),
            Layer::MaxPool2d(m) => m.named_parameters(),
            Layer::RMSNorm(m) => m.named_parameters(),
            Layer::LayerNorm(m) => m.named_parameters(),
            Layer::BatchNorm2d(m) => m.named_parameters(),
            Layer::Embedding(m) => m.named_parameters(),
            Layer::SingleHeadAttention(m) => m.named_parameters(),
            Layer::MultiHeadAttention(m) => m.named_parameters(),
            Layer::CrossAttentionPool(m) => m.named_parameters(),
        }
    }

    fn train(&mut self) {
        match self {
            Layer::Linear(m) => m.train(),
            Layer::Relu(m) => m.train(),
            Layer::Sigmoid(m) => m.train(),
            Layer::Tanh(m) => m.train(),
            Layer::Conv1d(m) => m.train(),
            Layer::Conv2d(m) => m.train(),
            Layer::MaxPool2d(m) => m.train(),
            Layer::RMSNorm(m) => m.train(),
            Layer::LayerNorm(m) => m.train(),
            Layer::BatchNorm2d(m) => m.train(),
            Layer::Embedding(m) => m.train(),
            Layer::SingleHeadAttention(m) => m.train(),
            Layer::MultiHeadAttention(m) => m.train(),
            Layer::CrossAttentionPool(m) => m.train(),
        }
    }

    fn eval(&mut self) {
        match self {
            Layer::Linear(m) => m.eval(),
            Layer::Relu(m) => m.eval(),
            Layer::Sigmoid(m) => m.eval(),
            Layer::Tanh(m) => m.eval(),
            Layer::Conv1d(m) => m.eval(),
            Layer::Conv2d(m) => m.eval(),
            Layer::MaxPool2d(m) => m.eval(),
            Layer::RMSNorm(m) => m.eval(),
            Layer::LayerNorm(m) => m.eval(),
            Layer::BatchNorm2d(m) => m.eval(),
            Layer::Embedding(m) => m.eval(),
            Layer::SingleHeadAttention(m) => m.eval(),
            Layer::MultiHeadAttention(m) => m.eval(),
            Layer::CrossAttentionPool(m) => m.eval(),
        }
    }

    fn to_dtype(&mut self, target: Dtype) {
        match self {
            Layer::Linear(m) => m.to_dtype(target),
            Layer::Relu(m) => m.to_dtype(target),
            Layer::Sigmoid(m) => m.to_dtype(target),
            Layer::Tanh(m) => m.to_dtype(target),
            Layer::Conv1d(m) => m.to_dtype(target),
            Layer::Conv2d(m) => m.to_dtype(target),
            Layer::MaxPool2d(m) => m.to_dtype(target),
            Layer::RMSNorm(m) => m.to_dtype(target),
            Layer::LayerNorm(m) => m.to_dtype(target),
            Layer::BatchNorm2d(m) => m.to_dtype(target),
            Layer::Embedding(m) => m.to_dtype(target),
            Layer::SingleHeadAttention(m) => m.to_dtype(target),
            Layer::MultiHeadAttention(m) => m.to_dtype(target),
            Layer::CrossAttentionPool(m) => m.to_dtype(target),
        }
    }
}

/// Wherever `m` is used, `l` does the same.
pub open spec fn stands_for<M: Module>(
    l: Layer,
    m: M,
    shape: Seq<usize>,
    state: InputState,
) -> bool {
    &&& l.forward_model(shape, state) == m.forward_model(shape, state)
    &&& l.accepts(shape) == m.accepts(shape)
    &&& l.param_models() == m.param_models()
    &&& l.param_names() == m.param_names()
}

/// A layer of any kind is the layer inside it: it takes the same inputs, runs
/// the same program and has the same parameters under the same names.
pub proof fn law_layer_is_what_it_holds(l: Layer, shape: Seq<usize>, state: InputState)
    ensures
        match l {
            Layer::Linear(m) => stands_for(l, m, shape, state),
            Layer::Relu(m) => stands_for(l, m, shape, state),
            Layer::Sigmoid(m) => stands_for(l, m, shape, state),
            Layer::Tanh(m) => stands_for(l, m, shape, state),
            Layer::Conv1d(m) => stands_for(l, m, shape, state),
            Layer::Conv2d(m) => stands_for(l, m, shape, state),
            Layer::MaxPool2d(m) => stands_for(l, m, shape, state),
            Layer::RMSNorm(m) => stands_for(l, m, shape, state),
            Layer::LayerNorm(m) => stands_for(l, m, shape, state),
            Layer::BatchNorm2d(m) => stands_for(l, m, shape, state),
            Layer::Embedding(m) => stands_for(l, m, shape, state),
            Layer::SingleHeadAttention(m) => stands_for(l, m, shape, state),
            Layer::MultiHeadAttention(m) => stands_for(l, m, shape, state),
            Layer::CrossAttentionPool(m) => stands_for(l, m, shape, state),
        },
{
}

} // verus!
