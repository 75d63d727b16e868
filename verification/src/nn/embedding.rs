//! Lookup tables.
use crate::nn::init;
use crate::nn::init::Init;
use crate::nn::linear;
use crate::nn::meaning;
use crate::nn::meaning::Num;
use crate::nn::module;
use crate::nn::module::{ErrorView, InputState, Module, ModuleError};
use crate::nn::param::{Dtype, ParamModel, Parameter, ValuesModel};
use crate::nn::program;
use crate::nn::program::{Dense, Op, OpModel, ProgModel, Program};
use vstd::prelude::*;

verus! {

/// The bits of `1.0`.
pub const ONE_BITS: u32 = 0x3f80_0000;

/// A fresh table, with entries drawn from the standard normal distribution.
pub open spec fn table(vocab_size: usize, embed_dim: usize, seed: u64) -> ParamModel {
    ParamModel::fresh(
        seq![vocab_size, embed_dim],
        ValuesModel::Seeded { init: Init::Normal { mean: 0, std: ONE_BITS }, seed },
    )
}

/// A table of `vocab_size` rows of `embed_dim` entries.
#[derive(Debug)]
pub struct Embedding {
    /// `[vocab_size, embed_dim]`.
    pub weight: Parameter,
    pub vocab_size: usize,
    pub embed_dim: usize,
}

/// Picks the rows of the table, input 1, by the indices, input 0.
pub open spec fn lookup() -> ProgModel {
    ProgModel::start(2).emit(OpModel::IndexSelect, seq![1, 0])
}

impl Embedding {
    /// A table drawn with seed zero.
    pub fn new(vocab_size: usize, embed_dim: usize) -> (r: Self)
        requires
            vocab_size * embed_dim <= usize::MAX,
        ensures
            r.weight@ == table(vocab_size, embed_dim, 0),
            r.vocab_size == vocab_size,
            r.embed_dim == embed_dim,
    {
        Self::with_seed(vocab_size, embed_dim, 0)
    }

    /// A table drawn with the given seed.
    pub fn with_seed(vocab_size: usize, embed_dim: usize, seed: u64) -> (r: Self)
        requires
            vocab_size * embed_dim <= usize::MAX,
        ensures
            r.weight@ == table(vocab_size, embed_dim, seed),
            r.vocab_size == vocab_size,
            r.embed_dim == embed_dim,
    {
        let mut shape: Vec<usize> = Vec::new();
        shape.push(vocab_size);
        shape.push(embed_dim);
        assert(shape@ =~= seq![vocab_size, embed_dim]);
        let strategy = Init::Normal { mean: 0, std: ONE_BITS };
        Embedding { weight: Parameter::seeded(shape, strategy, seed), vocab_size, embed_dim }
    }

    /// Rows of the table.
    pub fn vocab_size(&self) -> (r: usize)
        ensures
            r == self.vocab_size,
    {
        self.vocab_size
    }

    /// Entries of a row.
    pub fn embed_dim(&self) -> (r: usize)
        ensures
            r == self.embed_dim,
    {
        self.embed_dim
    }

    /// Plans the lookup of a vector of indices.
    pub fn forward_indices(&self) -> (r: Program)
        ensures
            r@ == lookup(),
    {
        let mut p = Program::start(2);
        p.emit2(Op::IndexSelect, 1, 0);
        p
    }
}

impl Module for Embedding {
    open spec fn param_models(&self) -> Seq<ParamModel> {
        seq![self.weight@]
    }

    open spec fn param_names(&self) -> Seq<Seq<char>> {
        linear::weight_names(false)
    }

    open spec fn forward_model(&self, shape: Seq<usize>, state: InputState) -> Result<
        ProgModel,
        ErrorView,
    > {
        Ok(lookup())
    }

    open spec fn accepts(&self, shape: Seq<usize>) -> bool {
        true
    }

    open spec fn switched(&self, before: &Self, training: bool) -> bool {
        *self == *before
    }

    open spec fn recast(&self, before: &Self, target: Dtype) -> bool {
        &&& self.weight@ == before.weight@.cast(target)
        &&& *self == (Embedding { weight: self.weight, ..*before })
    }

    fn takes(&self, shape: &[usize]) -> (r: bool) {
        true
    }

    fn forward(&self, shape: &[usize], state: &InputState) -> (r: Result<Program, ModuleError>) {
        Ok(self.forward_indices())
    }

    fn parameters(&self) -> (r: Vec<Parameter>) {
        linear::weight_and_bias(&self.weight, &None)
    }

    fn named_parameters(&self) -> (r: Vec<(String, Parameter)>) {
        linear::named_weight_and_bias(&self.weight, &None)
    }

    fn train(&mut self) {
    }

    fn eval(&mut self) {
    }

    fn to_dtype(&mut self, target: Dtype) {
        self.weight.cast(target);
        assert(self.param_models() =~= module::cast_all(old(self).param_models(), target));
    }
}

/// Looking up `n` indices gives `[n, embed_dim]`.
pub proof fn law_lookup_shape(vocab_size: usize, embed_dim: usize, n: usize)
    ensures
        lookup().output_shape(seq![seq![n], seq![vocab_size, embed_dim]]) == Some(
            seq![n, embed_dim],
        ),
{
    let env = seq![seq![n], seq![vocab_size, embed_dim]];
    let p = ProgModel::start(2);
    assert(p.shapes(env) == Some(env));
    program::lemma_emit2(p, env, env, OpModel::IndexSelect, 1, 0, seq![n, embed_dim]);
}

/// The draws that fill a fresh table are normal with mean zero and deviation
/// one, whatever its size.
pub proof fn law_table_is_standard_normal(vocab_size: usize, embed_dim: usize, seed: u64)
    ensures
        table(vocab_size, embed_dim, seed).values matches ValuesModel::Seeded { init, seed: s }
            && init::draw_of(init, seq![vocab_size, embed_dim]) == (init::Draw::Normal {
            mean: 0,
            std: ONE_BITS,
        }),
{
}

/// The lookup gives, for token `i`, the row of the table that the token names.
pub proof fn law_embedding_computes<T>(
    e: Embedding,
    num: Num<T>,
    tokens: Dense<T>,
    weight: Dense<T>,
    state: InputState,
    i: int,
    j: int,
)
    requires
        tokens.shape.len() == 1,
        weight.shape == seq![e.vocab_size, e.embed_dim],
        0 <= i < tokens.shape[0],
        0 <= j < e.embed_dim,
    ensures
        e.param_names()[0] == "weight"@ && e.param_models()[0] == e.weight@,
        e.forward_model(tokens.shape, state) is Ok,
        ({
            let y = meaning::computes(
                num,
                e.forward_model(tokens.shape, state)->Ok_0,
                seq![tokens, weight],
            );
            &&& y.shape == seq![tokens.shape[0], e.embed_dim]
            &&& y.at(meaning::ix2(i, j)) == weight.at(
                meaning::ix2((num.index)(tokens.at(meaning::ix1(i))), j),
            )
        }),
{
    let p = ProgModel::start(2);
    let inputs = seq![tokens, weight];
    assert(meaning::values(num, p, inputs) == inputs);
    meaning::lemma_step(num, p, inputs, OpModel::IndexSelect, seq![1, 0]);
    let s = seq![tokens.shape[0], e.embed_dim];
    let idx = meaning::ix2(i, j);
    assert(meaning::inside(s, idx));
    meaning::lemma_table::<T>(s, idx);
}

} // verus!
