//! When layers take an input, and which program their calls give.
use crate::nn::attention;
use crate::nn::attention::{scaled_dot_product_attention, MultiHeadAttention, SingleHeadAttention};
use crate::nn::conv::{Conv1d, Conv2d, MaxPool2d};
use crate::nn::embedding::Embedding;
use crate::nn::gqa::{GQAError, GqaShape};
use crate::nn::kv_cache::CacheModel;
use crate::nn::linear;
use crate::nn::linear::{Bilinear, Linear};
use crate::nn::module::{ErrorView, InputState, Module, ModuleError};
use crate::nn::param::Dtype;
use crate::nn::pool::CrossAttentionPool;
use crate::nn::program::{ProgModel, Program};
use vstd::prelude::*;

verus! {

/// The call gives the program where `valid` holds and is refused otherwise,
/// by the operation `op`.
pub open spec fn runs_where(
    valid: bool,
    op: Seq<char>,
    r: Result<Program, ModuleError>,
    p: ProgModel,
) -> bool {
    match r {
        Ok(q) => valid && q@ == p,
        Err(e) => !valid && e@.op == op,
    }
}

/// A linear layer takes exactly the inputs of rank two or more whose last axis
/// has its number of features.
pub proof fn law_linear_takes_features(l: Linear, shape: Seq<usize>, state: InputState)
    ensures
        l.forward_model(shape, state) is Ok <==> shape.len() >= 2 && shape[shape.len() - 1]
            == l.in_features,
        l.forward_model(shape, state) matches Err(e) ==> e.op == "Linear::forward"@,
{
}

/// A convolution along one axis takes exactly the inputs of rank three; the
/// others leave the check to the computation.
pub proof fn law_convolutions_take_rank(
    a: Conv1d,
    b: Conv2d,
    c: MaxPool2d,
    shape: Seq<usize>,
    state: InputState,
)
    ensures
        a.forward_model(shape, state) is Ok <==> shape.len() == 3,
        a.forward_model(shape, state) matches Err(e) ==> e.op == "conv1d"@,
        b.forward_model(shape, state) is Ok,
        c.forward_model(shape, state) is Ok,
{
}

/// The queries, keys and values of an attention call fit together: rank three,
/// the embedding's width, one batch, and as many values as keys.
pub open spec fn fit_together(
    embed_dim: usize,
    q: Seq<usize>,
    k: Seq<usize>,
    v: Seq<usize>,
) -> bool {
    &&& q.len() == 3 && k.len() == 3 && v.len() == 3
    &&& q[2] == embed_dim && k[2] == embed_dim && v[2] == embed_dim
    &&& q[0] == k[0] && k[0] == v[0]
    &&& k[1] == v[1]
}

/// Attention takes exactly the queries, keys and values that fit together.
pub proof fn law_attention_takes_what_fits(
    m: MultiHeadAttention,
    q: &[usize],
    k: &[usize],
    v: &[usize],
    masked: bool,
    state: InputState,
    r: Result<Program, ModuleError>,
)
    ensures
        call_ensures(MultiHeadAttention::forward, (&m, q, k, v, masked), r) ==> runs_where(
            fit_together(m.embed_dim, q@, k@, v@),
            "MultiHeadAttention::forward"@,
            r,
            attention::cross_program(m, masked, q@[0], q@[1], k@[1]),
        ),
        call_ensures(MultiHeadAttention::self_attention, (&m, q, masked), r) ==> runs_where(
            q@.len() == 3 && q@[2] == m.embed_dim,
            "MultiHeadAttention::forward"@,
            r,
            attention::self_program(m, masked, q@[0], q@[1]),
        ),
        m.forward_model(q@, state) is Ok <==> q@.len() == 3 && q@[2] == m.embed_dim,
        m.forward_model(q@, state) matches Ok(p) ==> p == attention::self_program(
            m,
            false,
            q@[0],
            q@[1],
        ),
        call_ensures(scaled_dot_product_attention, (q,), r) ==> runs_where(
            q@.len() == 3,
            "sdp_attention"@,
            r,
            attention::emit_core(ProgModel::start(3), 0, 1, 2, q@[2] as nat, None),
        ),
{
}

/// Attention with one head takes exactly a single sequence of single-precision
/// rows of its width.
pub proof fn law_single_head_takes_one_sequence(
    a: SingleHeadAttention,
    shape: Seq<usize>,
    state: InputState,
)
    ensures
        a.forward_model(shape, state) is Ok <==> shape.len() == 3 && shape[0] == 1 && state.dtype
            == Dtype::F32 && shape[2] == a.q_proj.in_features,
{
}

/// Pooling takes exactly the inputs of rank three and of its width.
pub proof fn law_pool_takes_its_width(
    c: CrossAttentionPool,
    shape: Seq<usize>,
    state: InputState,
)
    ensures
        c.forward_model(shape, state) is Ok <==> shape.len() == 3 && shape[2] == c.dim,
        c.forward_model(shape, state) matches Err(e) ==> e.op == "CrossAttentionPool::forward"@,
{
}

/// The bilinear form and the lookup give their programs on every input.
pub proof fn law_plain_calls(
    b: Bilinear,
    e: Embedding,
    rank: usize,
    shape: Seq<usize>,
    state: InputState,
    p: Program,
)
    ensures
        call_ensures(Bilinear::forward2, (&b, rank), p) ==> p@ == linear::emit_bilinear(
            b,
            rank as nat,
        ),
        call_ensures(Embedding::forward_indices, (&e,), p) ==> e.forward_model(
            shape,
            state,
        ) == Ok::<ProgModel, ErrorView>(p@),
{
}

/// The error is about the length of the buffer of that name.
pub open spec fn names_length(e: Option<GQAError>, name: Seq<char>, len: usize) -> bool {
    e matches Some(GQAError::WrongInputLen { which, expected, got }) && which@ == name && got == len
}

/// Grouped attention takes exactly head counts that divide and buffers of the
/// lengths of their shapes; the error names what is wrong.
pub proof fn law_gqa_takes_its_lengths(s: GqaShape, q: usize, k: usize, v: usize, out: usize)
    ensures
        ({
            let heads = s.n_kv_heads != 0 && s.n_heads % s.n_kv_heads == 0;
            let rows = s.batch * s.n_heads * s.seq_q * s.head_dim;
            let cached = s.batch * s.n_kv_heads * s.seq_kv * s.head_dim;
            let e = s.error(q as nat, k as nat, v as nat, out as nat);
            &&& e is None <==> heads && q == rows && k == cached && v == cached && out == rows
            &&& !heads ==> e == Some(
                GQAError::HeadCountMismatch { n_heads: s.n_heads, n_kv_heads: s.n_kv_heads },
            )
            &&& heads && q != rows ==> names_length(e, "q"@, q)
            &&& heads && q == rows && k != cached ==> names_length(e, "k"@, k)
            &&& heads && q == rows && k == cached && v != cached ==> names_length(e, "v"@, v)
        }),
{
}

/// A cache takes exactly the rows of a layer that it has, as long as there is
/// room, in buffers of the length of the rows.
pub proof fn law_cache_takes_what_has_room<T>(
    c: CacheModel<T>,
    layer: usize,
    added: usize,
    k_len: usize,
    v_len: usize,
)
    ensures
        ({
            let e = c.append_error(layer, added, k_len, v_len);
            let l = c.layers[layer as int];
            let rows = l.batch * l.n_heads * added * l.head_dim;
            &&& layer >= c.layers.len() <==> e is Some && e->0 is LayerOutOfRange
            &&& layer < c.layers.len() ==> (c.current_len + added > c.max_seq <==> e is Some
                && e->0 is Overflow)
            &&& layer < c.layers.len() && c.current_len + added <= c.max_seq ==> (e is None <==> k_len
                == rows && v_len == rows)
        }),
{
}

} // verus!
