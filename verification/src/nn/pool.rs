//! Pooling of a sequence into a fixed number of slots by cross-attention from
//! a bank of learned queries.
use crate::blocks;
use crate::nn::attention;
use crate::nn::attention::MultiHeadAttention;
use crate::nn::attention_value;
use crate::nn::attention_value::Affine;
use crate::nn::init;
use crate::nn::meaning;
use crate::nn::meaning::Num;
use crate::nn::module;
use crate::nn::module::{module_error, ErrorView, InputState, Module, ModuleError};
use crate::nn::norm;
use crate::nn::norm::RMSNorm;
use crate::nn::param::{Dtype, ParamModel, Parameter};
use crate::nn::program;
use crate::nn::program::{Dense, Op, OpModel, ProgModel, Program};
use crate::text;
use crate::text::Text;
use vstd::prelude::*;

verus! {

/// Pools `[B, T, dim]` into `[B, num_queries, dim]`.
#[derive(Debug)]
pub struct CrossAttentionPool {
    /// `[num_queries, dim]`.
    pub query: Parameter,
    pub mha: MultiHeadAttention,
    /// Normalises the queries.
    pub query_norm: RMSNorm,
    /// Normalises the input.
    pub kv_norm: RMSNorm,
    pub dim: usize,
    pub num_queries: usize,
}

/// Why an input of the given shape is refused, or `None`.
pub open spec fn pool_error(dim: usize, shape: Seq<usize>) -> Option<ErrorView> {
    if shape.len() != 3 {
        Some(
            ErrorView {
                op: "CrossAttentionPool::forward"@,
                message: "expected rank-3 input [B, T, D], got "@ + text::shape_text(shape),
            },
        )
    } else if shape[2] != dim {
        Some(
            ErrorView {
                op: "CrossAttentionPool::forward"@,
                message: "input dim "@ + text::decimal(shape[2] as nat) + " != configured dim "@
                    + text::decimal(dim as nat),
            },
        )
    } else {
        None
    }
}

/// The elements of `q`, `times` times in a row.
pub open spec fn tiled<T>(q: Seq<T>, times: int) -> Seq<T> {
    Seq::new((times * q.len()) as nat, |i: int| q[i % (q.len() as int)])
}

/// Repeats the elements of the query bank, once for each batch entry.
pub fn tile_queries<T: Copy>(q: &[T], times: usize) -> (r: Vec<T>)
    requires
        times * q@.len() <= usize::MAX,
    ensures
        r@ == tiled(q@, times as int),
{
    let n: usize = q.len();
    let mut r: Vec<T> = Vec::with_capacity(times * n);
    let mut b: usize = 0;
    assert(0 * n == 0) by (nonlinear_arith);
    while b < times
        invariant
            b <= times,
            n == q@.len(),
            times * n <= usize::MAX,
            r@ == tiled(q@, times as int).take(b * n),
        decreases times - b,
    {
        let ghost all = tiled(q@, times as int);
        let mut i: usize = 0;
        while i < n
            invariant
                b < times,
                i <= n,
                n == q@.len(),
                all == tiled(q@, times as int),
                r@ == all.take(b * n + i),
            decreases n - i,
        {
            r.push(q[i]);
            proof {
                blocks::lemma_at_bounds(b as int, n as int, i as int, times as int);
                assert((b * n + i) % (n as int) == i) by (nonlinear_arith)
                    requires
                        0 <= i < n,
                        0 <= b,
                ;
                assert(r@ =~= all.take(b * n + i + 1));
            }
            i += 1;
        }
        assert((b + 1) * n == b * n + n) by (nonlinear_arith);
        b += 1;
    }
    assert(tiled(q@, times as int).take(times * n) =~= tiled(q@, times as int));
    r
}

/// The error where the elements of the normalised bank of queries cannot be
/// read as single-precision numbers in row-major order.
pub open spec fn bank_error() -> ErrorView {
    ErrorView { op: "tile_queries"@, message: "expected contiguous F32 query bank"@ }
}

/// Repeats the elements of the query bank, where they can be read, once for
/// each batch entry.
pub fn tile_bank<T: Copy>(bank: Option<&[T]>, times: usize) -> (r: Result<Vec<T>, ModuleError>)
    requires
        bank matches Some(q) ==> times * q@.len() <= usize::MAX,
    ensures
        match bank {
            Some(q) => r matches Ok(v) && v@ == tiled(q@, times as int),
            None => r matches Err(e) && e@ == bank_error(),
        },
{
    match bank {
        Some(q) => Ok(tile_queries(q, times)),
        None => Err(
            module_error("tile_queries", Text::start("expected contiguous F32 query bank")),
        ),
    }
}

/// Every batch entry receives the same bank of queries.
pub proof fn law_tiles_are_copies<T>(q: Seq<T>, times: int, b: int)
    requires
        0 <= b < times,
    ensures
        tiled(q, times).subrange(b * q.len(), b * q.len() + q.len()) == q,
{
    let n = q.len() as int;
    assert(0 <= b * n && b * n + n <= times * n) by (nonlinear_arith)
        requires
            0 <= b < times,
            n >= 0,
    ;
    let s = tiled(q, times).subrange(b * n, b * n + n);
    assert forall|i: int| 0 <= i < n implies s[i] == q[i] by {
        assert((b * n + i) % n == i) by (nonlinear_arith)
            requires
                0 <= i < n,
                0 <= b,
        ;
    }
    assert(s =~= q);
}

impl CrossAttentionPool {
    /// The parts agree on the feature count.
    pub open spec fn wf(self) -> bool {
        self.mha.wf() && self.mha.embed_dim == self.dim
    }

    /// The state of the bank of queries beside an input in the given state: a
    /// parameter lies dense.
    pub open spec fn query_state(self, state: InputState) -> InputState {
        InputState { tracking: state.tracking, dtype: self.query@.dtype, contiguous: true }
    }

    /// The forward program on `[b, t, dim]`: normalise queries and input,
    /// repeat the queries over the batch, and attend from them to the input.
    pub open spec fn program(self, b: usize, t: usize, state: InputState) -> ProgModel {
        let c = self.mha.count();
        let q = self.query_norm.run(
            ProgModel::start(4 + c),
            1,
            2 + c,
            seq![self.num_queries, self.dim],
            self.query_state(state),
        );
        let kv = self.kv_norm.run(q, 0, 3 + c, seq![b, t, self.dim], state);
        let tiles = kv.emit(OpModel::Tile(b as nat), seq![q.result]);
        let q3 = tiles.emit(
            OpModel::Reshape(seq![b, self.num_queries, self.dim]),
            seq![tiles.result],
        );
        attention::emit_mha(
            self.mha,
            q3,
            q3.result,
            kv.result,
            kv.result,
            None,
            2,
            b,
            self.num_queries,
            t,
        )
    }

    /// A pool with noise queries.
    pub fn new(dim: usize, num_queries: usize, num_heads: usize) -> (r: Self)
        requires
            num_heads > 0,
            dim % num_heads == 0,
            dim * dim <= usize::MAX,
            num_queries * dim <= usize::MAX,
        ensures
            r.wf(),
            r.dim == dim,
            r.num_queries == num_queries,
            r.query@ == ParamModel::noise_matrix(num_queries, dim, dim),
            r.mha.num_heads == num_heads,
            r.mha.dropout == 0,
            r.mha.count() == 8,
            r.mha.param_models() == seq![
                ParamModel::noise_matrix(dim, dim, dim),
                ParamModel::zeros(dim),
                ParamModel::noise_matrix(dim, dim, dim),
                ParamModel::zeros(dim),
                ParamModel::noise_matrix(dim, dim, dim),
                ParamModel::zeros(dim),
                ParamModel::noise_matrix(dim, dim, dim),
                ParamModel::zeros(dim),
            ],
            r.query_norm.gamma@ == ParamModel::ones(dim),
            r.query_norm.eps == norm::RMS_EPS,
            r.query_norm.normalized_size == dim,
            r.kv_norm.gamma@ == ParamModel::ones(dim),
            r.kv_norm.eps == norm::RMS_EPS,
            r.kv_norm.normalized_size == dim,
    {
        CrossAttentionPool {
            query: Parameter::noise_matrix(num_queries, dim, dim),
            mha: MultiHeadAttention::new(dim, num_heads),
            query_norm: RMSNorm::new(dim),
            kv_norm: RMSNorm::new(dim),
            dim,
            num_queries,
        }
    }

    /// Feature count.
    pub fn dim(&self) -> (r: usize)
        ensures
            r == self.dim,
    {
        self.dim
    }

    /// Number of query slots.
    pub fn num_queries(&self) -> (r: usize)
        ensures
            r == self.num_queries,
    {
        self.num_queries
    }
}

impl Module for CrossAttentionPool {
    open spec fn param_models(&self) -> Seq<ParamModel> {
        seq![self.query@] + self.mha.param_models() + self.query_norm.param_models()
            + self.kv_norm.param_models()
    }

    open spec fn param_names(&self) -> Seq<Seq<char>> {
        seq!["query"@] + module::prefixed("mha."@, self.mha.param_names()) + module::prefixed(
            "query_norm."@,
            self.query_norm.param_names(),
        ) + module::prefixed("kv_norm."@, self.kv_norm.param_names())
    }

    open spec fn forward_model(&self, shape: Seq<usize>, state: InputState) -> Result<
        ProgModel,
        ErrorView,
    > {
        module::outcome(pool_error(self.dim, shape), self.program(shape[0], shape[1], state))
    }

    open spec fn accepts(&self, shape: Seq<usize>) -> bool {
        &&& self.wf()
        &&& init::products_fit(self.query_norm.gamma@.shape)
        &&& init::products_fit(self.kv_norm.gamma@.shape)
        &&& pool_error(self.dim, shape) is None ==> self.mha.sizes_fit(
            shape[0] as int,
            self.num_queries as int,
            shape[1] as int,
        )
    }

    open spec fn switched(&self, before: &Self, training: bool) -> bool {
        *self == *before
    }

    open spec fn recast(&self, before: &Self, target: Dtype) -> bool {
        &&& self.query@ == before.query@.cast(target)
        &&& self.mha.recast(&before.mha, target)
        &&& self.query_norm.recast(&before.query_norm, target)
        &&& self.kv_norm.recast(&before.kv_norm, target)
        &&& self.dim == before.dim
        &&& self.num_queries == before.num_queries
    }

    fn takes(&self, shape: &[usize]) -> (r: bool) {
        if !self.mha.check() || self.mha.embed_dim != self.dim {
            return false;
        }
        if !init::check_products(self.query_norm.gamma.shape.as_slice())
            || !init::check_products(self.kv_norm.gamma.shape.as_slice()) {
            return false;
        }
        if shape.len() != 3 || shape[2] != self.dim {
            return true;
        }
        self.mha.check_sizes(shape[0], self.num_queries, shape[1])
    }

    fn forward(&self, shape: &[usize], state: &InputState) -> (r: Result<Program, ModuleError>) {
        if shape.len() != 3 {
            return Err(
                module_error(
                    "CrossAttentionPool::forward",
                    Text::start("expected rank-3 input [B, T, D], got ").shape(shape),
                ),
            );
        }
        let batch: usize = shape[0];
        let kv_d: usize = shape[2];
        if kv_d != self.dim {
            return Err(
                module_error(
                    "CrossAttentionPool::forward",
                    Text::start("input dim ").num(kv_d).lit(" != configured dim ").num(self.dim),
                ),
            );
        }
        let c: usize = self.mha.param_count();
        let mut p = Program::start(4 + c);
        let mut bank: Vec<usize> = Vec::new();
        bank.push(self.num_queries);
        bank.push(self.dim);
        assert(bank@ =~= seq![self.num_queries, self.dim]);
        assert(shape@ =~= seq![shape@[0], shape@[1], self.dim]);
        let bank_state = InputState {
            tracking: state.tracking,
            dtype: self.query.dtype,
            contiguous: true,
        };
        let q: usize = self.query_norm.emit_on(&mut p, 1, 2 + c, bank.as_slice(), &bank_state);
        let kv: usize = self.kv_norm.emit_on(&mut p, 0, 3 + c, shape, state);
        let tiles: usize = p.emit1(Op::Tile(batch), q);
        let q_shape = attention::dims3(batch, self.num_queries, self.dim);
        let q3_dims = attention::dims3(batch, self.num_queries, self.dim);
        let q3: usize = p.emit1(Op::Reshape(q3_dims), tiles);
        match self.mha.emit(&mut p, q3, kv, kv, None, 2, q_shape.as_slice(), shape, shape) {
            Ok(_) => Ok(p),
            Err(e) => Err(e),
        }
    }

    fn parameters(&self) -> (r: Vec<Parameter>) {
        let mut v = module::no_params();
        module::push_param(&mut v, self.query.copy());
        module::extend_params(&mut v, self.mha.parameters());
        module::extend_params(&mut v, self.query_norm.parameters());
        module::extend_params(&mut v, self.kv_norm.parameters());
        assert(module::models(v@) =~= self.param_models());
        v
    }

    fn named_parameters(&self) -> (r: Vec<(String, Parameter)>) {
        let mut v = module::no_named();
        module::push_named(&mut v, "query", self.query.copy());
        module::extend_named(&mut v, "mha.", &self.mha.named_parameters());
        module::extend_named(&mut v, "query_norm.", &self.query_norm.named_parameters());
        module::extend_named(&mut v, "kv_norm.", &self.kv_norm.named_parameters());
        assert(module::names(v@) =~= self.param_names());
        assert(module::named_models(v@) =~= self.param_models());
        v
    }

    fn train(&mut self) {
    }

    fn eval(&mut self) {
    }

    fn to_dtype(&mut self, target: Dtype) {
        self.query.cast(target);
        self.mha.to_dtype(target);
        self.query_norm.to_dtype(target);
        self.kv_norm.to_dtype(target);
        assert(self.param_models() =~= module::cast_all(old(self).param_models(), target));
        assert(self.param_names() =~= old(self).param_names());
    }
}

/// The shapes of the input and of the parameters of a pool.
pub open spec fn pool_env(c: CrossAttentionPool, b: usize, t: usize) -> Seq<Seq<usize>> {
    let m = c.mha;
    seq![seq![b, t, c.dim], seq![c.num_queries, c.dim]] + attention::projection_shapes(
        m.q_proj,
        m.k_proj,
        m.v_proj,
        m.o_proj,
    ) + seq![seq![c.dim], seq![c.dim]]
}

/// Whatever its length, a sequence is pooled into `[B, num_queries, dim]`.
pub proof fn law_pool_shape(c: CrossAttentionPool, b: usize, t: usize, state: InputState)
    requires
        c.wf(),
        c.mha.sizes_fit(b as int, c.num_queries as int, t as int),
        b * c.num_queries * c.dim <= usize::MAX,
    ensures
        c.program(b, t, state).output_shape(pool_env(c, b, t)) == Some(
            seq![b, c.num_queries, c.dim],
        ),
{
    let m = c.mha;
    let n = m.count();
    let qn = c.num_queries;
    let d = c.dim;
    let env = pool_env(c, b, t);
    let head = seq![seq![b, t, d], seq![qn, d]];
    let proj = attention::projection_shapes(m.q_proj, m.k_proj, m.v_proj, m.o_proj);
    let inner = head + proj;
    attention::lemma_projection_shapes(inner, head, m.q_proj, m.k_proj, m.v_proj, m.o_proj);
    assert(inner[0] == head[0] && inner[1] == head[1]);
    assert(forall|i: int| 0 <= i < inner.len() ==> env[i] == inner[i]);
    assert(env.len() == 4 + n);
    assert(env[2 + n as int] == seq![d] && env[3 + n as int] == seq![d]);
    let p0 = ProgModel::start(4 + n);
    assert(p0.shapes(env) == Some(env));
    assert(seq![qn, d].last() == d && seq![b, t, d].last() == d);
    let bank = seq![qn, d];
    let bank_state = c.query_state(state);
    let e1 = norm::lemma_rms_run_shape(
        c.query_norm,
        p0,
        env,
        env,
        1,
        2 + n,
        bank,
        bank_state,
    );
    let q = c.query_norm.run(p0, 1, 2 + n, bank, bank_state);
    let e2 = norm::lemma_rms_run_shape(c.kv_norm, q, env, e1, 0, 3 + n, seq![b, t, d], state);
    let kv = c.kv_norm.run(q, 0, 3 + n, seq![b, t, d], state);
    assert(e2[q.result as int] == seq![qn, d]);
    program::lemma_products(qn, d, 0, 0);
    assert(b * (qn * d) == b * qn * d) by (nonlinear_arith);
    assert(0 <= b * qn * d) by (nonlinear_arith);
    let len = (b * qn * d) as usize;
    program::lemma_emit1(kv, env, e2, OpModel::Tile(b as nat), q.result, seq![len]);
    let tiles = kv.emit(OpModel::Tile(b as nat), seq![q.result]);
    let e3 = e2.push(seq![len]);
    let s3 = seq![b, qn, d];
    program::lemma_products(b, qn, d, 0);
    program::lemma_products(len, 0, 0, 0);
    program::lemma_emit1(tiles, env, e3, OpModel::Reshape(s3), tiles.result, s3);
    let q3 = tiles.emit(OpModel::Reshape(s3), seq![tiles.result]);
    let e4 = e3.push(s3);
    assert(program::extends(e4, env));
    lemma_holds(m, inner, e4);
    let f = attention::lemma_mha_shape(
        m,
        q3,
        env,
        e4,
        q3.result,
        kv.result,
        kv.result,
        None,
        2,
        b,
        qn,
        t,
    );
}

proof fn lemma_holds(m: MultiHeadAttention, inner: Seq<Seq<usize>>, e: Seq<Seq<usize>>)
    requires
        inner.len() == 2 + m.count(),
        program::extends(e, inner),
        attention::holds_params(inner, m.q_proj, 2),
        attention::holds_params(inner, m.k_proj, 2 + m.q_proj.count()),
        attention::holds_params(inner, m.v_proj, 2 + m.q_proj.count() + m.k_proj.count()),
        attention::holds_params(
            inner,
            m.o_proj,
            2 + m.q_proj.count() + m.k_proj.count() + m.v_proj.count(),
        ),
    ensures
        attention::holds_params(e, m.q_proj, 2),
        attention::holds_params(e, m.k_proj, 2 + m.q_proj.count()),
        attention::holds_params(e, m.v_proj, 2 + m.q_proj.count() + m.k_proj.count()),
        attention::holds_params(
            e,
            m.o_proj,
            2 + m.q_proj.count() + m.k_proj.count() + m.v_proj.count(),
        ),
{
}

/// Cross-attention pooling computes multi-head attention from the normalised
/// bank of queries, the same bank for every batch entry, to the normalised
/// input, which serves as keys and as values. The inputs of the program are
/// the input, the bank, the parameters of the attention, and the scales of the
/// queries' and the input's normalisation.
#[verifier::rlimit(60)]
#[verifier::spinoff_prover]
pub proof fn law_pool_computes<T>(
    c: CrossAttentionPool,
    num: Num<T>,
    x: Dense<T>,
    query: Dense<T>,
    wq: Affine<T>,
    wk: Affine<T>,
    wv: Affine<T>,
    wo: Affine<T>,
    query_gamma: Dense<T>,
    kv_gamma: Dense<T>,
    state: InputState,
    b: usize,
    t: usize,
    g: int,
    i: int,
    j: int,
)
    requires
        c.wf(),
        c.mha.sizes_fit(b as int, c.num_queries as int, t as int),
        x.shape == seq![b, t, c.dim],
        query.shape == seq![c.num_queries, c.dim],
        query_gamma.shape == seq![c.dim],
        kv_gamma.shape == seq![c.dim],
        wq.fits(c.mha.q_proj) && wk.fits(c.mha.k_proj) && wv.fits(c.mha.v_proj) && wo.fits(
            c.mha.o_proj,
        ),
        0 <= g < b,
        0 <= i < c.num_queries,
        0 <= j < c.dim,
    ensures
        c.param_names()[0] == "query"@ && c.param_models()[0] == c.query@,
        c.forward_model(x.shape, state) is Ok,
        ({
            let y = meaning::computes(
                num,
                c.forward_model(x.shape, state)->Ok_0,
                seq![x, query] + wq.params() + wk.params() + wv.params() + wo.params() + seq![
                    query_gamma,
                    kv_gamma,
                ],
            );
            let qs = Dense::table(
                seq![b, c.num_queries, c.dim],
                |idx: Seq<int>|
                    norm::rms_at(
                        num,
                        c.query_norm.fuses(query.shape, c.query_state(state)),
                        c.query_norm.eps,
                        query,
                        query_gamma,
                        meaning::ix2(idx[1], idx[2]),
                    ),
            );
            let kv = Dense::table(
                seq![b, t, c.dim],
                |idx: Seq<int>|
                    norm::rms_at(
                        num,
                        c.kv_norm.fuses(x.shape, state),
                        c.kv_norm.eps,
                        x,
                        kv_gamma,
                        idx,
                    ),
            );
            &&& y.shape == seq![b, c.num_queries, c.dim]
            &&& y.at(meaning::ix3(g, i, j)) == attention_value::multi_head_at(
                num,
                qs,
                kv,
                kv,
                None,
                wq,
                wk,
                wv,
                wo,
                c.mha.num_heads as int,
                c.mha.head_dim as int,
                g,
                i,
                j,
            )
        }),
{
    let head = seq![x, query];
    let inner = head + wq.params() + wk.params() + wv.params() + wo.params();
    let inputs = inner + seq![query_gamma, kv_gamma];
    let m = c.mha;
    let n = m.count();
    let d = c.dim;
    let nq = c.num_queries;
    attention_value::lemma_params_stand(head, wq, wk, wv, wo);
    assert(inner.len() == 2 + n);
    assert(inner[0] == head[0] && inner[1] == head[1]);
    assert(forall|k: int| 0 <= k < inner.len() ==> inputs[k] == #[trigger] inner[k]);
    assert(inputs[2 + n as int] == query_gamma && inputs[3 + n as int] == kv_gamma);
    let p0 = ProgModel::start(4 + n);
    assert(meaning::values(num, p0, inputs) == inputs);
    assert(inputs[0] == x && inputs[1] == query) by {
        assert(inputs[0] == inner[0] && inputs[1] == inner[1]);
    }
    let bank = seq![nq, d];
    let full = seq![b, t, d];
    let bank_state = c.query_state(state);
    let pq = c.query_norm.run(p0, 1, 2 + n, bank, bank_state);
    norm::lemma_rms_run_value(num, c.query_norm, p0, inputs, 1, 2 + n, bank, bank_state);
    let qv = meaning::computes(num, pq, inputs);
    let pk = c.kv_norm.run(pq, 0, 3 + n, full, state);
    assert(meaning::values(num, pq, inputs)[0] == x);
    assert(meaning::values(num, pq, inputs)[3 + n as int] == kv_gamma);
    norm::lemma_rms_run_value(num, c.kv_norm, pq, inputs, 0, 3 + n, full, state);
    meaning::lemma_goes_on(num, p0, pq, pk, inputs);
    let kv = meaning::computes(num, pk, inputs);
    let pt = pk.emit(OpModel::Tile(b as nat), seq![pq.result]);
    assert(meaning::values(num, pk, inputs)[pq.result as int] == qv);
    meaning::lemma_step(num, pk, inputs, OpModel::Tile(b as nat), seq![pq.result]);
    meaning::lemma_goes_on(num, p0, pk, pt, inputs);
    let tv = meaning::computes(num, pt, inputs);
    let out = seq![b, nq, d];
    let p3 = pt.emit(OpModel::Reshape(out), seq![pt.result]);
    meaning::lemma_step(num, pt, inputs, OpModel::Reshape(out), seq![pt.result]);
    meaning::lemma_goes_on(num, p0, pt, p3, inputs);
    meaning::lemma_goes_on(num, pk, pt, p3, inputs);
    let q3 = meaning::computes(num, p3, inputs);
    let e3 = meaning::values(num, p3, inputs);
    assert(e3[pk.result as int] == kv);
    assert forall|k: int| 0 <= k < inner.len() implies e3[k] == #[trigger] inner[k] by {
        assert(inputs[k] == inner[k]);
    }
    lemma_still_holds(e3, inner, wq, wk, wv, wo, m);
    attention_value::lemma_mha_value(
        num,
        m,
        p3,
        inputs,
        p3.result,
        pk.result,
        pk.result,
        None,
        2,
        b,
        nq,
        t,
        wq,
        wk,
        wv,
        wo,
        g,
        i,
        j,
    );
    let f = |idx: Seq<int>|
        norm::rms_at(
            num,
            c.query_norm.fuses(bank, bank_state),
            c.query_norm.eps,
            query,
            query_gamma,
            meaning::ix2(idx[1], idx[2]),
        );
    let h = |idx: Seq<int>|
        norm::rms_at(num, c.kv_norm.fuses(full, state), c.kv_norm.eps, x, kv_gamma, idx);
    let qs = Dense::table(out, f);
    let ks = Dense::table(full, h);
    assert forall|l: int| #![trigger q3.at(meaning::ix3(g, i, l))] 0 <= l < d implies q3.at(
        meaning::ix3(g, i, l),
    ) == qs.at(meaning::ix3(g, i, l)) by {
        let idx = meaning::ix3(g, i, l);
        assert(meaning::inside(out, idx));
        meaning::lemma_table::<T>(out, idx);
        let at = meaning::ix2(i, l);
        assert(meaning::inside(bank, at));
        meaning::lemma_ravel_short(out, idx);
        meaning::lemma_ravel_short(bank, at);
        program::lemma_products(nq, d, 0, 0);
        let w = nq * d;
        let k = (g * nq + i) * d + l;
        assert(0 <= i * d + l < w) by (nonlinear_arith)
            requires
                0 <= i < nq,
                0 <= l < d,
                w == nq * d,
        ;
        assert(k == g * w + (i * d + l)) by (nonlinear_arith)
            requires
                k == (g * nq + i) * d + l,
                w == nq * d,
        ;
        let r = i * d + l;
        assert(k % w == r && 0 <= k < b * w) by (nonlinear_arith)
            requires
                k == g * w + r,
                0 <= r < w,
                0 <= g < b,
        ;
        assert(qv.data.len() == w);
        assert(q3.at(idx) == qv.data[k % w]);
        assert(qv.at(at) == qv.data[r]);
        assert(idx[1] == i && idx[2] == l);
    }
    assert forall|s: int, l: int| #![trigger kv.at(meaning::ix3(g, s, l))] 0 <= s < t && 0 <= l
        < d implies kv.at(meaning::ix3(g, s, l)) == ks.at(meaning::ix3(g, s, l)) by {
        let idx = meaning::ix3(g, s, l);
        assert(meaning::inside(full, idx));
        meaning::lemma_table::<T>(full, idx);
    }
    attention_value::lemma_multi_head_congruent(
        num,
        q3,
        kv,
        kv,
        qs,
        ks,
        ks,
        None,
        wq,
        wk,
        wv,
        wo,
        m.num_heads as int,
        m.head_dim as int,
        g,
        i,
        j,
    );
}

proof fn lemma_still_holds<T>(
    e: Seq<Dense<T>>,
    inner: Seq<Dense<T>>,
    wq: Affine<T>,
    wk: Affine<T>,
    wv: Affine<T>,
    wo: Affine<T>,
    m: MultiHeadAttention,
)
    requires
        e.len() >= inner.len(),
        forall|k: int| 0 <= k < inner.len() ==> e[k] == #[trigger] inner[k],
        wq.fits(m.q_proj) && wk.fits(m.k_proj) && wv.fits(m.v_proj) && wo.fits(m.o_proj),
        attention_value::holds(inner, wq, 2),
        attention_value::holds(inner, wk, 2 + wq.params().len()),
        attention_value::holds(inner, wv, 2 + wq.params().len() + wk.params().len()),
        attention_value::holds(
            inner,
            wo,
            2 + wq.params().len() + wk.params().len() + wv.params().len(),
        ),
    ensures
        attention_value::holds(e, wq, 2),
        attention_value::holds(e, wk, 2 + m.q_proj.count()),
        attention_value::holds(e, wv, 2 + m.q_proj.count() + m.k_proj.count()),
        attention_value::holds(
            e,
            wo,
            2 + m.q_proj.count() + m.k_proj.count() + m.v_proj.count(),
        ),
{
}

} // verus!
