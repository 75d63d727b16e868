//! Scaled dot-product attention: stateless, single-head and multi-head.
use crate::blocks;
use crate::nn::init;
use crate::nn::linear;
use crate::nn::linear::Linear;
use crate::nn::module;
use crate::nn::module::{module_error, ErrorView, InputState, Module, ModuleError};
use crate::nn::param::{Dtype, ParamModel, Parameter};
use crate::nn::program;
use crate::nn::program::{Op, OpModel, ProgModel, Program};
use crate::text;
use crate::text::Text;
use vstd::prelude::*;

verus! {

/// The steps of `softmax(q @ transpose(k) / sqrt(d) + mask) @ v` on three
/// values of rank three.
pub open spec fn emit_core(
    p: ProgModel,
    q: nat,
    k: nat,
    v: nat,
    d: nat,
    mask: Option<nat>,
) -> ProgModel {
    let p1 = p.emit(OpModel::Transpose(1, 2), seq![k]);
    let p2 = p1.emit(OpModel::Bmm, seq![q, p1.result]);
    let p3 = p2.emit(OpModel::InvSqrt(d), seq![]);
    let p4 = p3.emit(OpModel::Mul, seq![p2.result, p3.result]);
    let p5 = match mask {
        Some(m) => p4.emit(OpModel::Add, seq![p4.result, m]),
        None => p4,
    };
    let p6 = p5.emit(OpModel::Softmax(2), seq![p5.result]);
    p6.emit(OpModel::Bmm, seq![p6.result, v])
}

fn attend(p: &mut Program, q: usize, k: usize, v: usize, d: usize, mask: Option<usize>) -> (id: usize)
    requires
        old(p)@.next() + 8 <= usize::MAX,
    ensures
        final(p)@ == emit_core(
            old(p)@,
            q as nat,
            k as nat,
            v as nat,
            d as nat,
            match mask {
                Some(m) => Some(m as nat),
                None => None,
            },
        ),
        id == final(p)@.result,
{
    let k_t: usize = p.emit1(Op::Transpose(1, 2), k);
    let raw: usize = p.emit2(Op::Bmm, q, k_t);
    let inv_scale: usize = p.emit0(Op::InvSqrt(d));
    let scaled: usize = p.emit2(Op::Mul, raw, inv_scale);
    let scores: usize = match mask {
        Some(m) => p.emit2(Op::Add, scaled, m),
        None => scaled,
    };
    let attn: usize = p.emit1(Op::Softmax(2), scores);
    p.emit2(Op::Bmm, attn, v)
}

/// Why a query of the given shape is refused, or `None`.
pub open spec fn sdp_error(shape: Seq<usize>) -> Option<ErrorView> {
    if shape.len() != 3 {
        Some(
            ErrorView {
                op: "sdp_attention"@,
                message: "expected rank-3 Q, got "@ + text::shape_text(shape),
            },
        )
    } else {
        None
    }
}

/// Single-head attention on projected queries, keys and values, the inputs 0,
/// 1 and 2.
pub fn scaled_dot_product_attention(q_shape: &[usize]) -> (r: Result<Program, ModuleError>)
    ensures
        module::planned(r) == module::outcome(
            sdp_error(q_shape@),
            emit_core(ProgModel::start(3), 0, 1, 2, q_shape@[2] as nat, None),
        ),
{
    if q_shape.len() != 3 {
        return Err(
            module_error("sdp_attention", Text::start("expected rank-3 Q, got ").shape(q_shape)),
        );
    }
    let mut p = Program::start(3);
    let _ = attend(&mut p, 0, 1, 2, q_shape[2], None);
    Ok(p)
}

/// Shape of the attention core: queries `[n, t_q, d]` against keys and values
/// of `t_kv` positions give `[n, t_q, d]`.
pub proof fn lemma_core_shape(
    p: ProgModel,
    env: Seq<Seq<usize>>,
    e: Seq<Seq<usize>>,
    q: nat,
    k: nat,
    v: nat,
    scale: nat,
    mask: Option<nat>,
    n: usize,
    t_q: usize,
    t_kv: usize,
    d: usize,
) -> (f: Seq<Seq<usize>>)
    requires
        p.shapes(env) == Some(e),
        q < e.len() && e[q as int] == seq![n, t_q, d],
        k < e.len() && e[k as int] == seq![n, t_kv, d],
        v < e.len() && e[v as int] == seq![n, t_kv, d],
        mask matches Some(m) ==> m < e.len() && program::broadcast_shape(
            seq![n, t_q, t_kv],
            e[m as int],
        ) == Some(seq![n, t_q, t_kv]),
    ensures
        ({
            let r = emit_core(p, q, k, v, scale, mask);
            &&& r.shapes(env) == Some(f)
            &&& r.result < f.len()
            &&& f[r.result as int] == seq![n, t_q, d]
            &&& program::extends(f, e)
            &&& r.inputs == p.inputs
        }),
{
    program::lemma_infer_len(p.steps, env);
    let kt = seq![n, d, t_kv];
    let sc = seq![n, t_q, t_kv];
    let ks = seq![n, t_kv, d];
    assert(ks.update(1, ks[2]).update(2, ks[1]) =~= kt);
    program::lemma_emit1(p, env, e, OpModel::Transpose(1, 2), k, kt);
    let p1 = p.emit(OpModel::Transpose(1, 2), seq![k]);
    let e1 = e.push(kt);
    program::lemma_emit2(p1, env, e1, OpModel::Bmm, q, p1.result, sc);
    let p2 = p1.emit(OpModel::Bmm, seq![q, p1.result]);
    let e2 = e1.push(sc);
    program::lemma_emit0(p2, env, e2, OpModel::InvSqrt(scale), seq![]);
    let p3 = p2.emit(OpModel::InvSqrt(scale), seq![]);
    let e3 = e2.push(seq![]);
    program::lemma_broadcasts(sc);
    program::lemma_emit2(p3, env, e3, OpModel::Mul, p2.result, p3.result, sc);
    let p4 = p3.emit(OpModel::Mul, seq![p2.result, p3.result]);
    let e4 = e3.push(sc);
    let (p5, e5) = match mask {
        Some(m) => {
            program::lemma_emit2(p4, env, e4, OpModel::Add, p4.result, m, sc);
            (p4.emit(OpModel::Add, seq![p4.result, m]), e4.push(sc))
        },
        None => (p4, e4),
    };
    program::lemma_emit1(p5, env, e5, OpModel::Softmax(2), p5.result, sc);
    let p6 = p5.emit(OpModel::Softmax(2), seq![p5.result]);
    let e6 = e5.push(sc);
    let out = seq![n, t_q, d];
    program::lemma_emit2(p6, env, e6, OpModel::Bmm, p6.result, v, out);
    e6.push(out)
}

/// Stateless attention keeps the shape of its query.
pub proof fn law_sdp_shape(b: usize, t: usize, t_kv: usize, d: usize)
    ensures
        emit_core(ProgModel::start(3), 0, 1, 2, d as nat, None).output_shape(
            seq![seq![b, t, d], seq![b, t_kv, d], seq![b, t_kv, d]],
        ) == Some(seq![b, t, d]),
{
    let env = seq![seq![b, t, d], seq![b, t_kv, d], seq![b, t_kv, d]];
    let p = ProgModel::start(3);
    assert(p.shapes(env) == Some(env));
    let f = lemma_core_shape(p, env, env, 0, 1, 2, d as nat, None, b, t, t_kv, d);
}

/// The four projections of an attention block map `d` features to `d`.
pub open spec fn projections_square(q: Linear, k: Linear, v: Linear, o: Linear, d: usize) -> bool {
    &&& q.in_features == d && q.out_features == d
    &&& k.in_features == d && k.out_features == d
    &&& v.in_features == d && v.out_features == d
    &&& o.in_features == d && o.out_features == d
}

fn check_square(q: &Linear, k: &Linear, v: &Linear, o: &Linear, d: usize) -> (r: bool)
    ensures
        r == projections_square(*q, *k, *v, *o, d),
{
    q.in_features == d && q.out_features == d && k.in_features == d && k.out_features == d
        && v.in_features == d && v.out_features == d && o.in_features == d && o.out_features == d
}

/// The parameters of four projections.
pub open spec fn projection_params(q: Linear, k: Linear, v: Linear, o: Linear) -> Seq<ParamModel> {
    q.param_models() + k.param_models() + v.param_models() + o.param_models()
}

/// The parameter names of four projections.
pub open spec fn projection_names(q: Linear, k: Linear, v: Linear, o: Linear) -> Seq<Seq<char>> {
    module::prefixed("q_proj."@, q.param_names()) + module::prefixed("k_proj."@, k.param_names())
        + module::prefixed("v_proj."@, v.param_names()) + module::prefixed(
        "o_proj."@,
        o.param_names(),
    )
}

fn collect_params(q: &Linear, k: &Linear, v: &Linear, o: &Linear) -> (r: Vec<Parameter>)
    ensures
        module::models(r@) == projection_params(*q, *k, *v, *o),
{
    let mut p = q.parameters();
    module::extend_params(&mut p, k.parameters());
    module::extend_params(&mut p, v.parameters());
    module::extend_params(&mut p, o.parameters());
    p
}

fn collect_named(q: &Linear, k: &Linear, v: &Linear, o: &Linear) -> (r: Vec<(String, Parameter)>)
    ensures
        module::names(r@) == projection_names(*q, *k, *v, *o),
        module::named_models(r@) == projection_params(*q, *k, *v, *o),
{
    let mut out = module::no_named();
    module::extend_named(&mut out, "q_proj.", &q.named_parameters());
    module::extend_named(&mut out, "k_proj.", &k.named_parameters());
    module::extend_named(&mut out, "v_proj.", &v.named_parameters());
    module::extend_named(&mut out, "o_proj.", &o.named_parameters());
    proof {
        assert(module::names(out@) =~= projection_names(*q, *k, *v, *o));
        assert(module::named_models(out@) =~= projection_params(*q, *k, *v, *o));
    }
    out
}

fn cast_projections(
    q: &mut Linear,
    k: &mut Linear,
    v: &mut Linear,
    o: &mut Linear,
    target: Dtype,
)
    ensures
        final(q).recast(old(q), target),
        final(k).recast(old(k), target),
        final(v).recast(old(v), target),
        final(o).recast(old(o), target),
        projection_params(*final(q), *final(k), *final(v), *final(o)) == module::cast_all(
            projection_params(*old(q), *old(k), *old(v), *old(o)),
            target,
        ),
        projection_names(*final(q), *final(k), *final(v), *final(o)) == projection_names(
            *old(q),
            *old(k),
            *old(v),
            *old(o),
        ),
{
    q.to_dtype(target);
    k.to_dtype(target);
    v.to_dtype(target);
    o.to_dtype(target);
    assert(projection_params(*q, *k, *v, *o) =~= module::cast_all(
        projection_params(*old(q), *old(k), *old(v), *old(o)),
        target,
    ));
}

/// `emit_core` as a block inside a larger program.
#[verifier::opaque]
pub open spec fn core_block(
    p: ProgModel,
    q: nat,
    k: nat,
    v: nat,
    d: nat,
    mask: Option<nat>,
) -> ProgModel {
    emit_core(p, q, k, v, d, mask)
}

fn attend_block(p: &mut Program, q: usize, k: usize, v: usize, d: usize, mask: Option<usize>) -> (id:
    usize)
    requires
        old(p)@.next() + 8 <= usize::MAX,
    ensures
        final(p)@ == core_block(
            old(p)@,
            q as nat,
            k as nat,
            v as nat,
            d as nat,
            match mask {
                Some(m) => Some(m as nat),
                None => None,
            },
        ),
        id == final(p)@.result,
        final(p)@.next() <= old(p)@.next() + 7,
{
    reveal(core_block);
    attend(p, q, k, v, d, mask)
}

/// A projection of value `x`, whose parameters start at `first`.
#[verifier::opaque]
pub open spec fn project(p: ProgModel, l: Linear, x: nat, first: nat, shape: Seq<usize>) -> ProgModel {
    linear::emit_linear(p, x, first, l.bias_id(first), shape, l.in_features, l.out_features)
}

fn project_block(l: &Linear, p: &mut Program, x: usize, first: usize, shape: &[usize]) -> (r: Result<
    usize,
    ModuleError,
>)
    requires
        old(p)@.next() + 4 <= usize::MAX,
        first < usize::MAX,
        linear::linear_error(l.in_features, shape@) is None && shape@.len() > 2
            ==> init::products_fit(shape@.drop_last()),
    ensures
        match r {
            Ok(id) => {
                &&& linear::linear_error(l.in_features, shape@) is None
                &&& final(p)@ == project(old(p)@, *l, x as nat, first as nat, shape@)
                &&& id == final(p)@.result
                &&& final(p)@.next() <= old(p)@.next() + 4
            },
            Err(e) => {
                &&& linear::linear_error(l.in_features, shape@) == Some(e@)
                &&& final(p)@ == old(p)@
            },
        },
{
    reveal(project);
    l.emit(p, x, first, shape)
}

/// Single-head attention with learned projections, for one sequence at a time.
#[derive(Debug)]
pub struct SingleHeadAttention {
    pub q_proj: Linear,
    pub k_proj: Linear,
    pub v_proj: Linear,
    pub o_proj: Linear,
}

/// The error of a copy between matrices and batches of one, where the elements
/// cannot be read as single-precision numbers in row-major order. A copy to a
/// matrix goes in front of a projection, a copy to a batch behind one.
pub open spec fn copy_error(rank: nat) -> ErrorView {
    ErrorView {
        op: if rank == 2 {
            "reshape_for_linear"@
        } else {
            "unsqueeze_batch"@
        },
        message: "expected contiguous F32"@,
    }
}

fn copy_refused(rank: usize) -> (r: ModuleError)
    ensures
        r@ == copy_error(rank as nat),
{
    let t = Text::start("expected contiguous F32");
    if rank == 2 {
        module_error("reshape_for_linear", t)
    } else {
        module_error("unsqueeze_batch", t)
    }
}

/// The elements of a detached copy under another shape: those of the tensor,
/// where they can be read.
pub fn detach<T>(shape: &[usize], elements: Option<Vec<T>>) -> (r: Result<Vec<T>, ModuleError>)
    ensures
        match elements {
            Some(v) => r matches Ok(w) && w == v,
            None => r matches Err(e) && e@ == copy_error(shape@.len()),
        },
{
    match elements {
        Some(v) => Ok(v),
        None => Err(copy_refused(shape.len())),
    }
}

/// Why single-head attention refuses an input, or `None`.
pub open spec fn single_head_error(
    a: SingleHeadAttention,
    shape: Seq<usize>,
    state: InputState,
) -> Option<ErrorView> {
    if shape.len() != 3 {
        Some(
            ErrorView {
                op: "single_head_attention"@,
                message: "expected rank-3 input, got "@ + text::shape_text(shape),
            },
        )
    } else if shape[0] != 1 {
        Some(
            ErrorView {
                op: "single_head_attention"@,
                message: "v1 SingleHeadAttention only supports B=1; got B="@ + text::decimal(
                    shape[0] as nat,
                ) + " (multi-batch awaits autograd-aware reshape)"@,
            },
        )
    } else if state.dtype != Dtype::F32 {
        Some(copy_error(2))
    } else {
        linear::linear_error(a.q_proj.in_features, seq![shape[1], shape[2]])
    }
}

/// The steps of single-head attention on a `[1, t, d]` input: the batch axis
/// is dropped for the projections and put back for the attention.
pub open spec fn emit_single_head(a: SingleHeadAttention, t: usize, d: usize) -> ProgModel {
    let flat = seq![t, d];
    let full = seq![1usize, t, d];
    let kf = 1 + a.q_proj.count();
    let vf = kf + a.k_proj.count();
    let of = vf + a.v_proj.count();
    let p0 = ProgModel::start(of + a.o_proj.count());
    let p1 = p0.emit(OpModel::Transpose(0, 0), seq![0]);
    let px = p1.emit(OpModel::Detach(flat), seq![p1.result]);
    let pq = project(px, a.q_proj, px.result, 1, flat);
    let pk = project(pq, a.k_proj, px.result, kf, flat);
    let pv = project(pk, a.v_proj, px.result, vf, flat);
    let q3 = pv.emit(OpModel::Detach(full), seq![pq.result]);
    let k3 = q3.emit(OpModel::Detach(full), seq![pk.result]);
    let v3 = k3.emit(OpModel::Detach(full), seq![pv.result]);
    let pc = core_block(v3, q3.result, k3.result, v3.result, d as nat, None);
    let p2 = pc.emit(OpModel::Detach(flat), seq![pc.result]);
    let po = project(p2, a.o_proj, p2.result, of, flat);
    po.emit(OpModel::Detach(full), seq![po.result])
}

fn dims2(a: usize, b: usize) -> (r: Vec<usize>)
    ensures
        r@ == seq![a, b],
{
    let mut r: Vec<usize> = Vec::new();
    r.push(a);
    r.push(b);
    assert(r@ =~= seq![a, b]);
    r
}

/// A shape of three axes.
pub fn dims3(a: usize, b: usize, c: usize) -> (r: Vec<usize>)
    ensures
        r@ == seq![a, b, c],
{
    let mut r = dims2(a, b);
    r.push(c);
    assert(r@ =~= seq![a, b, c]);
    r
}

fn dims4(a: usize, b: usize, c: usize, d: usize) -> (r: Vec<usize>)
    ensures
        r@ == seq![a, b, c, d],
{
    let mut r = dims3(a, b, c);
    r.push(d);
    assert(r@ =~= seq![a, b, c, d]);
    r
}

fn param_count(l: &Linear) -> (r: usize)
    ensures
        r == l.count(),
        1 <= r <= 2,
{
    match &l.bias {
        Some(_) => 2,
        None => 1,
    }
}

impl SingleHeadAttention {
    /// The four projections have the same sizes.
    pub open spec fn wf(self) -> bool {
        projections_square(
            self.q_proj,
            self.k_proj,
            self.v_proj,
            self.o_proj,
            self.q_proj.in_features,
        )
    }

    fn check(&self) -> (r: bool)
        ensures
            r == self.wf(),
    {
        check_square(
            &self.q_proj,
            &self.k_proj,
            &self.v_proj,
            &self.o_proj,
            self.q_proj.in_features,
        )
    }

    /// A block on `d` features.
    pub fn new(d: usize) -> (r: Self)
        requires
            d * d <= usize::MAX,
        ensures
            r.wf(),
            r.q_proj.in_features == d,
            r.param_models() == seq![
                ParamModel::noise_matrix(d, d, d),
                ParamModel::zeros(d),
                ParamModel::noise_matrix(d, d, d),
                ParamModel::zeros(d),
                ParamModel::noise_matrix(d, d, d),
                ParamModel::zeros(d),
                ParamModel::noise_matrix(d, d, d),
                ParamModel::zeros(d),
            ],
    {
        let r = SingleHeadAttention {
            q_proj: Linear::new(d, d),
            k_proj: Linear::new(d, d),
            v_proj: Linear::new(d, d),
            o_proj: Linear::new(d, d),
        };
        assert(r.param_models() =~= seq![
            ParamModel::noise_matrix(d, d, d),
            ParamModel::zeros(d),
            ParamModel::noise_matrix(d, d, d),
            ParamModel::zeros(d),
            ParamModel::noise_matrix(d, d, d),
            ParamModel::zeros(d),
            ParamModel::noise_matrix(d, d, d),
            ParamModel::zeros(d),
        ]);
        r
    }
}

impl Module for SingleHeadAttention {
    open spec fn param_models(&self) -> Seq<ParamModel> {
        projection_params(self.q_proj, self.k_proj, self.v_proj, self.o_proj)
    }

    open spec fn param_names(&self) -> Seq<Seq<char>> {
        projection_names(self.q_proj, self.k_proj, self.v_proj, self.o_proj)
    }

    open spec fn forward_model(&self, shape: Seq<usize>, state: InputState) -> Result<
        ProgModel,
        ErrorView,
    > {
        module::outcome(
            single_head_error(*self, shape, state),
            emit_single_head(*self, shape[1], shape[2]),
        )
    }

    open spec fn accepts(&self, shape: Seq<usize>) -> bool {
        self.wf()
    }

    open spec fn switched(&self, before: &Self, training: bool) -> bool {
        *self == *before
    }

    open spec fn recast(&self, before: &Self, target: Dtype) -> bool {
        &&& self.q_proj.recast(&before.q_proj, target)
        &&& self.k_proj.recast(&before.k_proj, target)
        &&& self.v_proj.recast(&before.v_proj, target)
        &&& self.o_proj.recast(&before.o_proj, target)
    }

    fn takes(&self, shape: &[usize]) -> (r: bool) {
        self.check()
    }

    fn forward(&self, shape: &[usize], state: &InputState) -> (r: Result<Program, ModuleError>) {
        if shape.len() != 3 {
            return Err(
                module_error(
                    "single_head_attention",
                    Text::start("expected rank-3 input, got ").shape(shape),
                ),
            );
        }
        if shape[0] != 1 {
            return Err(
                module_error(
                    "single_head_attention",
                    Text::start("v1 SingleHeadAttention only supports B=1; got B=").num(
                        shape[0],
                    ).lit(" (multi-batch awaits autograd-aware reshape)"),
                ),
            );
        }
        if state.dtype != Dtype::F32 {
            return Err(copy_refused(2));
        }
        let t: usize = shape[1];
        let d: usize = shape[2];
        let kf: usize = 1 + param_count(&self.q_proj);
        let vf: usize = kf + param_count(&self.k_proj);
        let of: usize = vf + param_count(&self.v_proj);
        let mut p = Program::start(of + param_count(&self.o_proj));
        let flat = dims2(t, d);
        let x0: usize = p.emit1(Op::Transpose(0, 0), 0);
        let x: usize = p.emit1(Op::Detach(dims2(t, d)), x0);
        let q: usize = match project_block(&self.q_proj, &mut p, x, 1, flat.as_slice()) {
            Ok(id) => id,
            Err(e) => {
                return Err(e);
            },
        };
        let k: usize = match project_block(&self.k_proj, &mut p, x, kf, flat.as_slice()) {
            Ok(id) => id,
            Err(e) => {
                return Err(e);
            },
        };
        let v: usize = match project_block(&self.v_proj, &mut p, x, vf, flat.as_slice()) {
            Ok(id) => id,
            Err(e) => {
                return Err(e);
            },
        };
        let q3: usize = p.emit1(Op::Detach(dims3(1, t, d)), q);
        let k3: usize = p.emit1(Op::Detach(dims3(1, t, d)), k);
        let v3: usize = p.emit1(Op::Detach(dims3(1, t, d)), v);
        let c: usize = attend_block(&mut p, q3, k3, v3, d, None);
        let c2: usize = p.emit1(Op::Detach(dims2(t, d)), c);
        let o: usize = match project_block(&self.o_proj, &mut p, c2, of, flat.as_slice()) {
            Ok(id) => id,
            Err(e) => {
                return Err(e);
            },
        };
        let _ = p.emit1(Op::Detach(dims3(1, t, d)), o);
        Ok(p)
    }

    fn parameters(&self) -> (r: Vec<Parameter>) {
        collect_params(&self.q_proj, &self.k_proj, &self.v_proj, &self.o_proj)
    }

    fn named_parameters(&self) -> (r: Vec<(String, Parameter)>) {
        collect_named(&self.q_proj, &self.k_proj, &self.v_proj, &self.o_proj)
    }

    fn train(&mut self) {
    }

    fn eval(&mut self) {
    }

    fn to_dtype(&mut self, target: Dtype) {
        cast_projections(
            &mut self.q_proj,
            &mut self.k_proj,
            &mut self.v_proj,
            &mut self.o_proj,
            target,
        );
    }
}

/// Multi-head attention with learned projections.
#[derive(Debug)]
pub struct MultiHeadAttention {
    pub q_proj: Linear,
    pub k_proj: Linear,
    pub v_proj: Linear,
    pub o_proj: Linear,
    pub embed_dim: usize,
    pub num_heads: usize,
    pub head_dim: usize,
    /// The bits of a dropout probability, which the forward pass does not look
    /// at.
    pub dropout: u32,
}

/// A rank error of one of the three operands.
pub open spec fn rank_error(name: Seq<char>, shape: Seq<usize>) -> ErrorView {
    ErrorView {
        op: "MultiHeadAttention::forward"@,
        message: "expected rank-3 "@ + name + " [B, T, D], got "@ + text::shape_text(shape),
    }
}

/// Why multi-head attention refuses its operands, or `None`: ranks first, then
/// feature counts, then batch and sequence sizes.
pub open spec fn mha_error(
    embed_dim: usize,
    q: Seq<usize>,
    k: Seq<usize>,
    v: Seq<usize>,
) -> Option<ErrorView> {
    if q.len() != 3 {
        Some(rank_error("q"@, q))
    } else if k.len() != 3 {
        Some(rank_error("k"@, k))
    } else if v.len() != 3 {
        Some(rank_error("v"@, v))
    } else if q[2] != embed_dim || k[2] != embed_dim || v[2] != embed_dim {
        Some(
            ErrorView {
                op: "MultiHeadAttention::forward"@,
                message: "embed dim mismatch: q="@ + text::decimal(q[2] as nat) + ", k="@
                    + text::decimal(k[2] as nat) + ", v="@ + text::decimal(v[2] as nat)
                    + ", configured="@ + text::decimal(embed_dim as nat),
            },
        )
    } else if k[0] != q[0] || v[0] != q[0] || v[1] != k[1] {
        Some(
            ErrorView {
                op: "MultiHeadAttention::forward"@,
                message: "k/v batch or seq mismatch: q="@ + text::shape_text(q) + ", k="@
                    + text::shape_text(k) + ", v="@ + text::shape_text(v),
            },
        )
    } else {
        None
    }
}

/// `[b, t, d]` to `[b * h, t, head_dim]`: cut the features into heads, bring
/// the heads forward, fold them into the batch.
#[verifier::opaque]
pub open spec fn emit_split(
    p: ProgModel,
    x: nat,
    b: usize,
    t: usize,
    h: usize,
    head_dim: usize,
) -> ProgModel {
    let p1 = p.emit(OpModel::Reshape(seq![b, t, h, head_dim]), seq![x]);
    let p2 = p1.emit(OpModel::Transpose(1, 2), seq![p1.result]);
    p2.emit(OpModel::Reshape(seq![(b * h) as usize, t, head_dim]), seq![p2.result])
}

/// `[b * h, t, head_dim]` back to `[b, t, d]`.
#[verifier::opaque]
pub open spec fn emit_merge(
    p: ProgModel,
    x: nat,
    b: usize,
    t: usize,
    h: usize,
    head_dim: usize,
    d: usize,
) -> ProgModel {
    let p1 = p.emit(OpModel::Reshape(seq![b, h, t, head_dim]), seq![x]);
    let p2 = p1.emit(OpModel::Transpose(1, 2), seq![p1.result]);
    p2.emit(OpModel::Reshape(seq![b, t, d]), seq![p2.result])
}

/// The steps of multi-head attention on the values `q`, `k` and `v`, with the
/// parameters from `first` on.
pub open spec fn emit_mha(
    m: MultiHeadAttention,
    p: ProgModel,
    q: nat,
    k: nat,
    v: nat,
    mask: Option<nat>,
    first: nat,
    b: usize,
    t_q: usize,
    t_kv: usize,
) -> ProgModel {
    let d = m.embed_dim;
    let qs = seq![b, t_q, d];
    let ks = seq![b, t_kv, d];
    let kf = first + m.q_proj.count();
    let vf = kf + m.k_proj.count();
    let of = vf + m.v_proj.count();
    let pq = project(p, m.q_proj, q, first, qs);
    let pk = project(pq, m.k_proj, k, kf, ks);
    let pv = project(pk, m.v_proj, v, vf, ks);
    let hq = emit_split(pv, pq.result, b, t_q, m.num_heads, m.head_dim);
    let hk = emit_split(hq, pk.result, b, t_kv, m.num_heads, m.head_dim);
    let hv = emit_split(hk, pv.result, b, t_kv, m.num_heads, m.head_dim);
    let pc = core_block(hv, hq.result, hk.result, hv.result, m.head_dim as nat, mask);
    let pm = emit_merge(pc, pc.result, b, t_q, m.num_heads, m.head_dim, d);
    project(pm, m.o_proj, pm.result, of, qs)
}

impl MultiHeadAttention {
    /// The heads share the features evenly and the projections keep them.
    pub open spec fn wf(self) -> bool {
        &&& self.num_heads > 0
        &&& self.num_heads * self.head_dim == self.embed_dim
        &&& projections_square(
            self.q_proj,
            self.k_proj,
            self.v_proj,
            self.o_proj,
            self.embed_dim,
        )
    }

    /// Number of parameters.
    pub open spec fn count(self) -> nat {
        self.q_proj.count() + self.k_proj.count() + self.v_proj.count() + self.o_proj.count()
    }

    /// The folded sizes of an accepted call fit the machine.
    pub open spec fn sizes_fit(self, b: int, t_q: int, t_kv: int) -> bool {
        b * t_q <= usize::MAX && b * t_kv <= usize::MAX && b * self.num_heads <= usize::MAX
    }

    /// Whether the heads share the features evenly and the projections keep
    /// them.
    pub fn check(&self) -> (r: bool)
        ensures
            r == self.wf(),
    {
        let square: bool = check_square(
            &self.q_proj,
            &self.k_proj,
            &self.v_proj,
            &self.o_proj,
            self.embed_dim,
        );
        let even: bool = match self.num_heads.checked_mul(self.head_dim) {
            Some(n) => n == self.embed_dim,
            None => false,
        };
        self.num_heads > 0 && even && square
    }

    /// Whether the sizes of a call fit the machine.
    pub fn check_sizes(&self, b: usize, t_q: usize, t_kv: usize) -> (r: bool)
        ensures
            r == self.sizes_fit(b as int, t_q as int, t_kv as int),
    {
        init::check_product(b, t_q) && init::check_product(b, t_kv) && init::check_product(
            b,
            self.num_heads,
        )
    }

    /// A block of `num_heads` heads on `embed_dim` features.
    pub fn new(embed_dim: usize, num_heads: usize) -> (r: Self)
        requires
            num_heads > 0,
            embed_dim % num_heads == 0,
            embed_dim * embed_dim <= usize::MAX,
        ensures
            r.wf(),
            r.embed_dim == embed_dim,
            r.num_heads == num_heads,
            r.head_dim == embed_dim / num_heads,
            r.dropout == 0,
            r.count() == 8,
            r.param_models() == seq![
                ParamModel::noise_matrix(embed_dim, embed_dim, embed_dim),
                ParamModel::zeros(embed_dim),
                ParamModel::noise_matrix(embed_dim, embed_dim, embed_dim),
                ParamModel::zeros(embed_dim),
                ParamModel::noise_matrix(embed_dim, embed_dim, embed_dim),
                ParamModel::zeros(embed_dim),
                ParamModel::noise_matrix(embed_dim, embed_dim, embed_dim),
                ParamModel::zeros(embed_dim),
            ],
    {
        let head_dim: usize = embed_dim / num_heads;
        assert(num_heads * head_dim == embed_dim) by (nonlinear_arith)
            requires
                num_heads > 0,
                embed_dim % num_heads == 0,
                head_dim == embed_dim / num_heads,
        ;
        let d: usize = embed_dim;
        let r = MultiHeadAttention {
            q_proj: Linear::new(d, d),
            k_proj: Linear::new(d, d),
            v_proj: Linear::new(d, d),
            o_proj: Linear::new(d, d),
            embed_dim,
            num_heads,
            head_dim,
            dropout: 0,
        };
        assert(r.param_models() =~= seq![
            ParamModel::noise_matrix(d, d, d),
            ParamModel::zeros(d),
            ParamModel::noise_matrix(d, d, d),
            ParamModel::zeros(d),
            ParamModel::noise_matrix(d, d, d),
            ParamModel::zeros(d),
            ParamModel::noise_matrix(d, d, d),
            ParamModel::zeros(d),
        ]);
        r
    }

    /// Feature count.
    pub fn embed_dim(&self) -> (r: usize)
        ensures
            r == self.embed_dim,
    {
        self.embed_dim
    }

    /// Number of heads.
    pub fn num_heads(&self) -> (r: usize)
        ensures
            r == self.num_heads,
    {
        self.num_heads
    }

    /// Features per head.
    pub fn head_dim(&self) -> (r: usize)
        ensures
            r == self.head_dim,
    {
        self.head_dim
    }

    fn split_heads(&self, p: &mut Program, x: usize, batch: usize, seq: usize) -> (id: usize)
        requires
            old(p)@.next() + 4 <= usize::MAX,
            batch * self.num_heads <= usize::MAX,
        ensures
            final(p)@ == emit_split(
                old(p)@,
                x as nat,
                batch,
                seq,
                self.num_heads,
                self.head_dim,
            ),
            id == final(p)@.result,
            final(p)@.next() == old(p)@.next() + 3,
    {
        reveal(emit_split);
        let x4: usize = p.emit1(
            Op::Reshape(dims4(batch, seq, self.num_heads, self.head_dim)),
            x,
        );
        let x4t: usize = p.emit1(Op::Transpose(1, 2), x4);
        p.emit1(Op::Reshape(dims3(batch * self.num_heads, seq, self.head_dim)), x4t)
    }

    fn merge_heads(&self, p: &mut Program, x: usize, batch: usize, seq: usize) -> (id: usize)
        requires
            old(p)@.next() + 4 <= usize::MAX,
        ensures
            final(p)@ == emit_merge(
                old(p)@,
                x as nat,
                batch,
                seq,
                self.num_heads,
                self.head_dim,
                self.embed_dim,
            ),
            id == final(p)@.result,
            final(p)@.next() == old(p)@.next() + 3,
    {
        reveal(emit_merge);
        let x4: usize = p.emit1(
            Op::Reshape(dims4(batch, self.num_heads, seq, self.head_dim)),
            x,
        );
        let x4t: usize = p.emit1(Op::Transpose(1, 2), x4);
        p.emit1(Op::Reshape(dims3(batch, seq, self.embed_dim)), x4t)
    }

    /// Emits the block on three values of the given shapes; the parameters are
    /// the values from `first` on. Operands that are refused emit nothing.
    pub fn emit(
        &self,
        p: &mut Program,
        q: usize,
        k: usize,
        v: usize,
        mask: Option<usize>,
        first: usize,
        q_shape: &[usize],
        k_shape: &[usize],
        v_shape: &[usize],
    ) -> (r: Result<usize, ModuleError>)
        requires
            self.wf(),
            old(p)@.next() + 64 <= usize::MAX,
            first + 16 <= usize::MAX,
            mha_error(self.embed_dim, q_shape@, k_shape@, v_shape@) is None ==> self.sizes_fit(
                q_shape@[0] as int,
                q_shape@[1] as int,
                k_shape@[1] as int,
            ),
        ensures
            match r {
                Ok(id) => {
                    &&& mha_error(self.embed_dim, q_shape@, k_shape@, v_shape@) is None
                    &&& final(p)@ == emit_mha(
                        *self,
                        old(p)@,
                        q as nat,
                        k as nat,
                        v as nat,
                        match mask {
                            Some(m) => Some(m as nat),
                            None => None,
                        },
                        first as nat,
                        q_shape@[0],
                        q_shape@[1],
                        k_shape@[1],
                    )
                    &&& id == final(p)@.result
                },
                Err(e) => {
                    &&& mha_error(self.embed_dim, q_shape@, k_shape@, v_shape@) == Some(e@)
                    &&& final(p)@ == old(p)@
                },
            },
    {
        if q_shape.len() != 3 {
            return Err(refuse_rank("q", q_shape));
        }
        if k_shape.len() != 3 {
            return Err(refuse_rank("k", k_shape));
        }
        if v_shape.len() != 3 {
            return Err(refuse_rank("v", v_shape));
        }
        let batch: usize = q_shape[0];
        let t_q: usize = q_shape[1];
        let t_kv: usize = k_shape[1];
        let embed: usize = q_shape[2];
        if embed != self.embed_dim || k_shape[2] != self.embed_dim || v_shape[2]
            != self.embed_dim {
            return Err(
                module_error(
                    "MultiHeadAttention::forward",
                    Text::start("embed dim mismatch: q=").num(embed).lit(", k=").num(
                        k_shape[2],
                    ).lit(", v=").num(v_shape[2]).lit(", configured=").num(self.embed_dim),
                ),
            );
        }
        if k_shape[0] != batch || v_shape[0] != batch || v_shape[1] != t_kv {
            return Err(
                module_error(
                    "MultiHeadAttention::forward",
                    Text::start("k/v batch or seq mismatch: q=").shape(q_shape).lit(", k=").shape(
                        k_shape,
                    ).lit(", v=").shape(v_shape),
                ),
            );
        }
        proof {
            assert(q_shape@ =~= seq![batch, t_q, self.embed_dim]);
            assert(k_shape@ =~= seq![batch, t_kv, self.embed_dim]);
            assert(v_shape@ =~= seq![batch, t_kv, self.embed_dim]);
            lemma_rank3_accepted(batch, t_q, self.embed_dim);
            lemma_rank3_accepted(batch, t_kv, self.embed_dim);
        }
        let ghost p0 = p@;
        let kf: usize = first + param_count(&self.q_proj);
        let vf: usize = kf + param_count(&self.k_proj);
        let of: usize = vf + param_count(&self.v_proj);
        let q1: usize = match project_block(&self.q_proj, p, q, first, q_shape) {
            Ok(id) => id,
            Err(e) => {
                return Err(e);
            },
        };
        let k1: usize = match project_block(&self.k_proj, p, k, kf, k_shape) {
            Ok(id) => id,
            Err(e) => {
                return Err(e);
            },
        };
        let v1: usize = match project_block(&self.v_proj, p, v, vf, v_shape) {
            Ok(id) => id,
            Err(e) => {
                return Err(e);
            },
        };
        let q2: usize = self.split_heads(p, q1, batch, t_q);
        let k2: usize = self.split_heads(p, k1, batch, t_kv);
        let v2: usize = self.split_heads(p, v1, batch, t_kv);
        let c: usize = attend_block(p, q2, k2, v2, self.head_dim, mask);
        let context: usize = self.merge_heads(p, c, batch, t_q);
        project_block(&self.o_proj, p, context, of, q_shape)
    }

    /// Number of parameters.
    pub fn param_count(&self) -> (r: usize)
        ensures
            r == self.count(),
            r <= 8,
    {
        param_count(&self.q_proj) + param_count(&self.k_proj) + param_count(&self.v_proj)
            + param_count(&self.o_proj)
    }

    /// Plans the block on three operands: inputs 0, 1 and 2, the mask behind
    /// them where there is one, and then the parameters.
    pub fn forward(
        &self,
        q_shape: &[usize],
        k_shape: &[usize],
        v_shape: &[usize],
        masked: bool,
    ) -> (r: Result<Program, ModuleError>)
        requires
            self.wf(),
            mha_error(self.embed_dim, q_shape@, k_shape@, v_shape@) is None ==> self.sizes_fit(
                q_shape@[0] as int,
                q_shape@[1] as int,
                k_shape@[1] as int,
            ),
        ensures
            module::planned(r) == module::outcome(
                mha_error(self.embed_dim, q_shape@, k_shape@, v_shape@),
                cross_program(*self, masked, q_shape@[0], q_shape@[1], k_shape@[1]),
            ),
    {
        let first: usize = if masked {
            4
        } else {
            3
        };
        let mut p = Program::start(first + self.param_count());
        let mask: Option<usize> = if masked {
            Some(3)
        } else {
            None
        };
        match self.emit(&mut p, 0, 1, 2, mask, first, q_shape, k_shape, v_shape) {
            Ok(_) => Ok(p),
            Err(e) => Err(e),
        }
    }

    /// Plans the block with the same tensor, input 0, as query, key and value.
    pub fn self_attention(&self, shape: &[usize], masked: bool) -> (r: Result<
        Program,
        ModuleError,
    >)
        requires
            self.wf(),
            mha_error(self.embed_dim, shape@, shape@, shape@) is None ==> self.sizes_fit(
                shape@[0] as int,
                shape@[1] as int,
                shape@[1] as int,
            ),
        ensures
            module::planned(r) == module::outcome(
                mha_error(self.embed_dim, shape@, shape@, shape@),
                self_program(*self, masked, shape@[0], shape@[1]),
            ),
    {
        let first: usize = if masked {
            2
        } else {
            1
        };
        let mut p = Program::start(first + self.param_count());
        let mask: Option<usize> = if masked {
            Some(1)
        } else {
            None
        };
        match self.emit(&mut p, 0, 0, 0, mask, first, shape, shape, shape) {
            Ok(_) => Ok(p),
            Err(e) => Err(e),
        }
    }
}

fn refuse_rank(name: &str, shape: &[usize]) -> (r: ModuleError)
    ensures
        r@ == rank_error(name@, shape@),
{
    module_error(
        "MultiHeadAttention::forward",
        Text::start("expected rank-3 ").lit(name).lit(" [B, T, D], got ").shape(shape),
    )
}

/// Attention of one tensor to another.
pub open spec fn cross_program(
    m: MultiHeadAttention,
    masked: bool,
    b: usize,
    t_q: usize,
    t_kv: usize,
) -> ProgModel {
    let first: nat = if masked { 4 } else { 3 };
    emit_mha(
        m,
        ProgModel::start(first + m.count()),
        0,
        1,
        2,
        if masked { Some(3nat) } else { None },
        first,
        b,
        t_q,
        t_kv,
    )
}

/// Attention of a tensor to itself.
pub open spec fn self_program(m: MultiHeadAttention, masked: bool, b: usize, t: usize) -> ProgModel {
    let first: nat = if masked { 2 } else { 1 };
    emit_mha(
        m,
        ProgModel::start(first + m.count()),
        0,
        0,
        0,
        if masked { Some(1nat) } else { None },
        first,
        b,
        t,
        t,
    )
}

/// A `[b, t, d]` shape is one that an affine layer on `d` features takes.
pub proof fn lemma_rank3_accepted(b: usize, t: usize, d: usize)
    ensures
        linear::linear_error(d, seq![b, t, d]) is None,
        b * t <= usize::MAX ==> init::products_fit(seq![b, t, d].drop_last()),
        seq![b, t, d].drop_last() == seq![b, t],
{
    let s = seq![b, t, d];
    let u = seq![b, t];
    assert(s.drop_last() =~= u);
    if b * t <= usize::MAX {
        program::lemma_products(b, t, 0, 0);
        assert forall|i: int| 0 <= i <= u.len() implies init::product(#[trigger] u.take(i))
            <= usize::MAX by {
            if i == 0 {
                assert(u.take(i) =~= seq![]);
            } else if i == 1 {
                assert(u.take(i) =~= seq![b]);
            } else {
                assert(u.take(i) =~= u);
            }
        }
    }
}

impl Module for MultiHeadAttention {
    open spec fn param_models(&self) -> Seq<ParamModel> {
        projection_params(self.q_proj, self.k_proj, self.v_proj, self.o_proj)
    }

    open spec fn param_names(&self) -> Seq<Seq<char>> {
        projection_names(self.q_proj, self.k_proj, self.v_proj, self.o_proj)
    }

    open spec fn forward_model(&self, shape: Seq<usize>, state: InputState) -> Result<
        ProgModel,
        ErrorView,
    > {
        module::outcome(
            mha_error(self.embed_dim, shape, shape, shape),
            self_program(*self, false, shape[0], shape[1]),
        )
    }

    open spec fn accepts(&self, shape: Seq<usize>) -> bool {
        &&& self.wf()
        &&& mha_error(self.embed_dim, shape, shape, shape) is None ==> self.sizes_fit(
            shape[0] as int,
            shape[1] as int,
            shape[1] as int,
        )
    }

    open spec fn switched(&self, before: &Self, training: bool) -> bool {
        *self == *before
    }

    open spec fn recast(&self, before: &Self, target: Dtype) -> bool {
        &&& self.q_proj.recast(&before.q_proj, target)
        &&& self.k_proj.recast(&before.k_proj, target)
        &&& self.v_proj.recast(&before.v_proj, target)
        &&& self.o_proj.recast(&before.o_proj, target)
        &&& self.embed_dim == before.embed_dim
        &&& self.num_heads == before.num_heads
        &&& self.head_dim == before.head_dim
        &&& self.dropout == before.dropout
    }

    fn takes(&self, shape: &[usize]) -> (r: bool) {
        if !self.check() {
            return false;
        }
        if shape.len() != 3 || shape[2] != self.embed_dim {
            return true;
        }
        self.check_sizes(shape[0], shape[1], shape[1])
    }

    fn forward(&self, shape: &[usize], state: &InputState) -> (r: Result<Program, ModuleError>) {
        self.self_attention(shape, false)
    }

    fn parameters(&self) -> (r: Vec<Parameter>) {
        collect_params(&self.q_proj, &self.k_proj, &self.v_proj, &self.o_proj)
    }

    fn named_parameters(&self) -> (r: Vec<(String, Parameter)>) {
        collect_named(&self.q_proj, &self.k_proj, &self.v_proj, &self.o_proj)
    }

    fn train(&mut self) {
    }

    fn eval(&mut self) {
    }

    fn to_dtype(&mut self, target: Dtype) {
        cast_projections(
            &mut self.q_proj,
            &mut self.k_proj,
            &mut self.v_proj,
            &mut self.o_proj,
            target,
        );
    }
}

/// The values from `first` on have the shapes of a layer's parameters.
pub open spec fn holds_params(e: Seq<Seq<usize>>, l: Linear, first: nat) -> bool {
    &&& first < e.len()
    &&& e[first as int] == seq![l.in_features, l.out_features]
    &&& l.bias is Some ==> first + 1 < e.len() && e[first as int + 1] == seq![l.out_features]
}

/// The shapes of a layer's parameters.
pub open spec fn param_shapes(l: Linear) -> Seq<Seq<usize>> {
    if l.bias is Some {
        seq![seq![l.in_features, l.out_features], seq![l.out_features]]
    } else {
        seq![seq![l.in_features, l.out_features]]
    }
}

/// Shape of a projection.
pub proof fn lemma_project_shape(
    p: ProgModel,
    env: Seq<Seq<usize>>,
    e: Seq<Seq<usize>>,
    l: Linear,
    x: nat,
    first: nat,
    shape: Seq<usize>,
) -> (f: Seq<Seq<usize>>)
    requires
        p.shapes(env) == Some(e),
        linear::linear_error(l.in_features, shape) is None,
        shape.len() > 2 ==> init::products_fit(shape.drop_last()),
        x < e.len(),
        e[x as int] == shape,
        holds_params(e, l, first),
    ensures
        ({
            let q = project(p, l, x, first, shape);
            &&& q.shapes(env) == Some(f)
            &&& q.result < f.len()
            &&& f[q.result as int] == shape.drop_last().push(l.out_features)
            &&& program::extends(f, e)
            &&& q.inputs == p.inputs
        }),
{
    reveal(project);
    linear::lemma_emit_linear_shape(
        p,
        env,
        e,
        x,
        first,
        l.bias_id(first),
        shape,
        l.in_features,
        l.out_features,
    )
}

/// Shape of the head split.
pub proof fn lemma_split_shape(
    p: ProgModel,
    env: Seq<Seq<usize>>,
    e: Seq<Seq<usize>>,
    x: nat,
    b: usize,
    t: usize,
    h: usize,
    hd: usize,
    d: usize,
) -> (f: Seq<Seq<usize>>)
    requires
        p.shapes(env) == Some(e),
        x < e.len(),
        e[x as int] == seq![b, t, d],
        h * hd == d,
        b * h <= usize::MAX,
    ensures
        ({
            let q = emit_split(p, x, b, t, h, hd);
            &&& q.shapes(env) == Some(f)
            &&& q.result < f.len()
            &&& f[q.result as int] == seq![(b * h) as usize, t, hd]
            &&& program::extends(f, e)
            &&& q.inputs == p.inputs
        }),
{
    reveal(emit_split);
    program::lemma_infer_len(p.steps, env);
    let s1 = seq![b, t, h, hd];
    let s2 = seq![b, h, t, hd];
    let bh = (b * h) as usize;
    assert(b * h >= 0) by (nonlinear_arith);
    let s3 = seq![bh, t, hd];
    program::lemma_products(b, t, h, hd);
    program::lemma_products(b, t, d, 0);
    program::lemma_products(b, h, t, hd);
    program::lemma_products(bh, t, hd, 0);
    assert(b * t * h * hd == b * t * d) by (nonlinear_arith)
        requires
            h * hd == d,
    ;
    assert(b * h * t * hd == b * t * h * hd) by (nonlinear_arith);
    program::lemma_emit1(p, env, e, OpModel::Reshape(s1), x, s1);
    let p1 = p.emit(OpModel::Reshape(s1), seq![x]);
    let e1 = e.push(s1);
    assert(s1.update(1, s1[2]).update(2, s1[1]) =~= s2);
    program::lemma_emit1(p1, env, e1, OpModel::Transpose(1, 2), p1.result, s2);
    let p2 = p1.emit(OpModel::Transpose(1, 2), seq![p1.result]);
    let e2 = e1.push(s2);
    program::lemma_emit1(p2, env, e2, OpModel::Reshape(s3), p2.result, s3);
    e2.push(s3)
}

/// Shape of the head merge.
pub proof fn lemma_merge_shape(
    p: ProgModel,
    env: Seq<Seq<usize>>,
    e: Seq<Seq<usize>>,
    x: nat,
    b: usize,
    t: usize,
    h: usize,
    hd: usize,
    d: usize,
) -> (f: Seq<Seq<usize>>)
    requires
        p.shapes(env) == Some(e),
        x < e.len(),
        e[x as int] == seq![(b * h) as usize, t, hd],
        h * hd == d,
        b * h <= usize::MAX,
    ensures
        ({
            let q = emit_merge(p, x, b, t, h, hd, d);
            &&& q.shapes(env) == Some(f)
            &&& q.result < f.len()
            &&& f[q.result as int] == seq![b, t, d]
            &&& program::extends(f, e)
            &&& q.inputs == p.inputs
        }),
{
    reveal(emit_merge);
    program::lemma_infer_len(p.steps, env);
    let bh = (b * h) as usize;
    assert(b * h >= 0) by (nonlinear_arith);
    let s0 = seq![bh, t, hd];
    let s1 = seq![b, h, t, hd];
    let s2 = seq![b, t, h, hd];
    let s3 = seq![b, t, d];
    program::lemma_products(bh, t, hd, 0);
    program::lemma_products(b, h, t, hd);
    program::lemma_products(b, t, h, hd);
    program::lemma_products(b, t, d, 0);
    assert(b * t * h * hd == b * t * d) by (nonlinear_arith)
        requires
            h * hd == d,
    ;
    program::lemma_emit1(p, env, e, OpModel::Reshape(s1), x, s1);
    let p1 = p.emit(OpModel::Reshape(s1), seq![x]);
    let e1 = e.push(s1);
    assert(s1.update(1, s1[2]).update(2, s1[1]) =~= s2);
    program::lemma_emit1(p1, env, e1, OpModel::Transpose(1, 2), p1.result, s2);
    let p2 = p1.emit(OpModel::Transpose(1, 2), seq![p1.result]);
    let e2 = e1.push(s2);
    program::lemma_emit1(p2, env, e2, OpModel::Reshape(s3), p2.result, s3);
    e2.push(s3)
}

proof fn lemma_holds_on(e: Seq<Seq<usize>>, f: Seq<Seq<usize>>, l: Linear, first: nat)
    requires
        holds_params(e, l, first),
        program::extends(f, e),
    ensures
        holds_params(f, l, first),
{
}

/// Shapes of the three input projections.
proof fn lemma_projections_shape(
    m: MultiHeadAttention,
    p: ProgModel,
    env: Seq<Seq<usize>>,
    e: Seq<Seq<usize>>,
    q: nat,
    k: nat,
    v: nat,
    first: nat,
    qs: Seq<usize>,
    ks: Seq<usize>,
) -> (f: Seq<Seq<usize>>)
    requires
        projections_square(m.q_proj, m.k_proj, m.v_proj, m.o_proj, m.embed_dim),
        linear::linear_error(m.embed_dim, qs) is None,
        linear::linear_error(m.embed_dim, ks) is None,
        init::products_fit(qs.drop_last()),
        init::products_fit(ks.drop_last()),
        qs.drop_last().push(m.embed_dim) == qs,
        ks.drop_last().push(m.embed_dim) == ks,
        p.shapes(env) == Some(e),
        q < e.len() && e[q as int] == qs,
        k < e.len() && e[k as int] == ks,
        v < e.len() && e[v as int] == ks,
        holds_params(e, m.q_proj, first),
        holds_params(e, m.k_proj, first + m.q_proj.count()),
        holds_params(e, m.v_proj, first + m.q_proj.count() + m.k_proj.count()),
    ensures
        ({
            let kf = first + m.q_proj.count();
            let vf = kf + m.k_proj.count();
            let pq = project(p, m.q_proj, q, first, qs);
            let pk = project(pq, m.k_proj, k, kf, ks);
            let pv = project(pk, m.v_proj, v, vf, ks);
            &&& pv.shapes(env) == Some(f)
            &&& pq.result < f.len() && f[pq.result as int] == qs
            &&& pk.result < f.len() && f[pk.result as int] == ks
            &&& pv.result < f.len() && f[pv.result as int] == ks
            &&& program::extends(f, e)
            &&& pv.inputs == p.inputs
        }),
{
    let kf = first + m.q_proj.count();
    let vf = kf + m.k_proj.count();
    let eq = lemma_project_shape(p, env, e, m.q_proj, q, first, qs);
    let pq = project(p, m.q_proj, q, first, qs);
    lemma_holds_on(e, eq, m.k_proj, kf);
    lemma_holds_on(e, eq, m.v_proj, vf);
    let ek = lemma_project_shape(pq, env, eq, m.k_proj, k, kf, ks);
    let pk = project(pq, m.k_proj, k, kf, ks);
    lemma_holds_on(eq, ek, m.v_proj, vf);
    lemma_project_shape(pk, env, ek, m.v_proj, v, vf, ks)
}

/// Shapes of the three head splits.
proof fn lemma_heads_shape(
    m: MultiHeadAttention,
    p: ProgModel,
    env: Seq<Seq<usize>>,
    e: Seq<Seq<usize>>,
    q: nat,
    k: nat,
    v: nat,
    b: usize,
    t_q: usize,
    t_kv: usize,
) -> (f: Seq<Seq<usize>>)
    requires
        m.wf(),
        m.sizes_fit(b as int, t_q as int, t_kv as int),
        p.shapes(env) == Some(e),
        q < e.len() && e[q as int] == seq![b, t_q, m.embed_dim],
        k < e.len() && e[k as int] == seq![b, t_kv, m.embed_dim],
        v < e.len() && e[v as int] == seq![b, t_kv, m.embed_dim],
    ensures
        ({
            let bh = (b * m.num_heads) as usize;
            let hq = emit_split(p, q, b, t_q, m.num_heads, m.head_dim);
            let hk = emit_split(hq, k, b, t_kv, m.num_heads, m.head_dim);
            let hv = emit_split(hk, v, b, t_kv, m.num_heads, m.head_dim);
            &&& hv.shapes(env) == Some(f)
            &&& hq.result < f.len() && f[hq.result as int] == seq![bh, t_q, m.head_dim]
            &&& hk.result < f.len() && f[hk.result as int] == seq![bh, t_kv, m.head_dim]
            &&& hv.result < f.len() && f[hv.result as int] == seq![bh, t_kv, m.head_dim]
            &&& program::extends(f, e)
            &&& hv.inputs == p.inputs
        }),
{
    let d = m.embed_dim;
    let h = m.num_heads;
    let hd = m.head_dim;
    let e1 = lemma_split_shape(p, env, e, q, b, t_q, h, hd, d);
    let hq = emit_split(p, q, b, t_q, h, hd);
    let e2 = lemma_split_shape(hq, env, e1, k, b, t_kv, h, hd, d);
    let hk = emit_split(hq, k, b, t_kv, h, hd);
    lemma_split_shape(hk, env, e2, v, b, t_kv, h, hd, d)
}

/// Shape of multi-head attention inside a program: queries `[b, t_q, d]` and
/// keys and values `[b, t_kv, d]` give `[b, t_q, d]`.
pub proof fn lemma_mha_shape(
    m: MultiHeadAttention,
    p: ProgModel,
    env: Seq<Seq<usize>>,
    e: Seq<Seq<usize>>,
    q: nat,
    k: nat,
    v: nat,
    mask: Option<nat>,
    first: nat,
    b: usize,
    t_q: usize,
    t_kv: usize,
) -> (f: Seq<Seq<usize>>)
    requires
        m.wf(),
        m.sizes_fit(b as int, t_q as int, t_kv as int),
        p.shapes(env) == Some(e),
        q < e.len() && e[q as int] == seq![b, t_q, m.embed_dim],
        k < e.len() && e[k as int] == seq![b, t_kv, m.embed_dim],
        v < e.len() && e[v as int] == seq![b, t_kv, m.embed_dim],
        holds_params(e, m.q_proj, first),
        holds_params(e, m.k_proj, first + m.q_proj.count()),
        holds_params(e, m.v_proj, first + m.q_proj.count() + m.k_proj.count()),
        holds_params(
            e,
            m.o_proj,
            first + m.q_proj.count() + m.k_proj.count() + m.v_proj.count(),
        ),
        mask matches Some(i) ==> i < e.len() && program::broadcast_shape(
            seq![(b * m.num_heads) as usize, t_q, t_kv],
            e[i as int],
        ) == Some(seq![(b * m.num_heads) as usize, t_q, t_kv]),
    ensures
        ({
            let r = emit_mha(m, p, q, k, v, mask, first, b, t_q, t_kv);
            &&& r.shapes(env) == Some(f)
            &&& r.result < f.len()
            &&& f[r.result as int] == seq![b, t_q, m.embed_dim]
            &&& program::extends(f, e)
            &&& r.inputs == p.inputs
        }),
{
    let d = m.embed_dim;
    let h = m.num_heads;
    let hd = m.head_dim;
    let bh = (b * h) as usize;
    let qs = seq![b, t_q, d];
    let ks = seq![b, t_kv, d];
    let kf = first + m.q_proj.count();
    let vf = kf + m.k_proj.count();
    let of = vf + m.v_proj.count();
    lemma_rank3_accepted(b, t_q, d);
    lemma_rank3_accepted(b, t_kv, d);
    assert(qs.drop_last().push(d) =~= qs);
    assert(ks.drop_last().push(d) =~= ks);
    let ev = lemma_projections_shape(m, p, env, e, q, k, v, first, qs, ks);
    let pq = project(p, m.q_proj, q, first, qs);
    let pk = project(pq, m.k_proj, k, kf, ks);
    let pv = project(pk, m.v_proj, v, vf, ks);
    lemma_holds_on(e, ev, m.o_proj, of);
    let eh = lemma_heads_shape(m, pv, env, ev, pq.result, pk.result, pv.result, b, t_q, t_kv);
    let hq = emit_split(pv, pq.result, b, t_q, h, hd);
    let hk = emit_split(hq, pk.result, b, t_kv, h, hd);
    let hv = emit_split(hk, pv.result, b, t_kv, h, hd);
    lemma_holds_on(ev, eh, m.o_proj, of);
    let hd_n = hd as nat;
    let ec = lemma_core_shape(
        hv,
        env,
        eh,
        hq.result,
        hk.result,
        hv.result,
        hd_n,
        mask,
        bh,
        t_q,
        t_kv,
        hd,
    );
    let pc = core_block(hv, hq.result, hk.result, hv.result, hd_n, mask);
    assert(pc == emit_core(hv, hq.result, hk.result, hv.result, hd_n, mask)) by {
        reveal(core_block);
    }
    lemma_holds_on(eh, ec, m.o_proj, of);
    let em = lemma_merge_shape(pc, env, ec, pc.result, b, t_q, h, hd, d);
    let pm = emit_merge(pc, pc.result, b, t_q, h, hd, d);
    lemma_holds_on(ec, em, m.o_proj, of);
    lemma_project_shape(pm, env, em, m.o_proj, pm.result, of, qs)
}

/// The shapes of a block's parameters.
pub open spec fn projection_shapes(q: Linear, k: Linear, v: Linear, o: Linear) -> Seq<Seq<usize>> {
    param_shapes(q) + param_shapes(k) + param_shapes(v) + param_shapes(o)
}

/// A shape list that starts with `head` and goes on with the shapes of a
/// block's parameters holds them behind `head`.
pub proof fn lemma_projection_shapes(
    env: Seq<Seq<usize>>,
    head: Seq<Seq<usize>>,
    q: Linear,
    k: Linear,
    v: Linear,
    o: Linear,
)
    requires
        env == head + projection_shapes(q, k, v, o),
    ensures
        env.len() == head.len() + q.count() + k.count() + v.count() + o.count(),
        holds_params(env, q, head.len()),
        holds_params(env, k, head.len() + q.count()),
        holds_params(env, v, head.len() + q.count() + k.count()),
        holds_params(env, o, head.len() + q.count() + k.count() + v.count()),
        forall|i: int| 0 <= i < head.len() ==> #[trigger] env[i] == head[i],
{
    let n = head.len() as int;
    let a = q.count() as int;
    let b = a + k.count();
    let c = b + v.count();
    assert(env[n] == param_shapes(q)[0]);
    assert(env[n + a] == param_shapes(k)[0]);
    assert(env[n + b] == param_shapes(v)[0]);
    assert(env[n + c] == param_shapes(o)[0]);
    if q.bias is Some {
        assert(env[n + 1] == param_shapes(q)[1]);
    }
    if k.bias is Some {
        assert(env[n + a + 1] == param_shapes(k)[1]);
    }
    if v.bias is Some {
        assert(env[n + b + 1] == param_shapes(v)[1]);
    }
    if o.bias is Some {
        assert(env[n + c + 1] == param_shapes(o)[1]);
    }
}

/// Multi-head attention without a mask gives `[B, T, embed_dim]`, also where
/// queries and keys have different sequence lengths.
pub proof fn law_mha_shape(m: MultiHeadAttention, b: usize, t_q: usize, t_kv: usize)
    requires
        m.wf(),
        m.sizes_fit(b as int, t_q as int, t_kv as int),
    ensures
        cross_program(m, false, b, t_q, t_kv).output_shape(
            seq![
                seq![b, t_q, m.embed_dim],
                seq![b, t_kv, m.embed_dim],
                seq![b, t_kv, m.embed_dim],
            ] + projection_shapes(m.q_proj, m.k_proj, m.v_proj, m.o_proj),
        ) == Some(seq![b, t_q, m.embed_dim]),
        self_program(m, false, b, t_q).output_shape(
            seq![seq![b, t_q, m.embed_dim]] + projection_shapes(
                m.q_proj,
                m.k_proj,
                m.v_proj,
                m.o_proj,
            ),
        ) == Some(seq![b, t_q, m.embed_dim]),
{
    let d = m.embed_dim;
    let head = seq![seq![b, t_q, d], seq![b, t_kv, d], seq![b, t_kv, d]];
    let env = head + projection_shapes(m.q_proj, m.k_proj, m.v_proj, m.o_proj);
    lemma_projection_shapes(env, head, m.q_proj, m.k_proj, m.v_proj, m.o_proj);
    let p = ProgModel::start(3 + m.count());
    assert(p.shapes(env) == Some(env));
    assert(env[0] == head[0] && env[1] == head[1] && env[2] == head[2]);
    let f = lemma_mha_shape(m, p, env, env, 0, 1, 2, None, 3, b, t_q, t_kv);
    let head1 = seq![seq![b, t_q, d]];
    let env1 = head1 + projection_shapes(m.q_proj, m.k_proj, m.v_proj, m.o_proj);
    lemma_projection_shapes(env1, head1, m.q_proj, m.k_proj, m.v_proj, m.o_proj);
    let p1 = ProgModel::start(1 + m.count());
    assert(p1.shapes(env1) == Some(env1));
    assert(env1[0] == head1[0]);
    let f1 = lemma_mha_shape(m, p1, env1, env1, 0, 0, 0, None, 1, b, t_q, t_q);
}

/// A mask of shape `[T_q, T_kv]`, `[1, T_q, T_kv]` or `[B * H, T_q, T_kv]` is
/// taken, and the output is still `[B, T_q, embed_dim]`.
pub proof fn law_masked_mha_shape(
    m: MultiHeadAttention,
    b: usize,
    t_q: usize,
    t_kv: usize,
    mask: Seq<usize>,
)
    requires
        m.wf(),
        m.sizes_fit(b as int, t_q as int, t_kv as int),
        mask == seq![t_q, t_kv] || mask == seq![1usize, t_q, t_kv] || mask == seq![
            (b * m.num_heads) as usize,
            t_q,
            t_kv,
        ],
    ensures
        cross_program(m, true, b, t_q, t_kv).output_shape(
            seq![
                seq![b, t_q, m.embed_dim],
                seq![b, t_kv, m.embed_dim],
                seq![b, t_kv, m.embed_dim],
                mask,
            ] + projection_shapes(m.q_proj, m.k_proj, m.v_proj, m.o_proj),
        ) == Some(seq![b, t_q, m.embed_dim]),
{
    let d = m.embed_dim;
    let n = (b * m.num_heads) as usize;
    let sc = seq![n, t_q, t_kv];
    lemma_mask_shapes(n, t_q, t_kv);
    let head = seq![seq![b, t_q, d], seq![b, t_kv, d], seq![b, t_kv, d], mask];
    let env = head + projection_shapes(m.q_proj, m.k_proj, m.v_proj, m.o_proj);
    lemma_projection_shapes(env, head, m.q_proj, m.k_proj, m.v_proj, m.o_proj);
    let p = ProgModel::start(4 + m.count());
    assert(p.shapes(env) == Some(env));
    assert(env[0] == head[0] && env[1] == head[1] && env[2] == head[2] && env[3] == head[3]);
    let f = lemma_mha_shape(m, p, env, env, 0, 1, 2, Some(3), 4, b, t_q, t_kv);
}

proof fn lemma_mask_shapes(n: usize, t_q: usize, t_kv: usize)
    ensures
        program::broadcast_shape(seq![n, t_q, t_kv], seq![t_q, t_kv]) == Some(seq![n, t_q, t_kv]),
        program::broadcast_shape(seq![n, t_q, t_kv], seq![1usize, t_q, t_kv]) == Some(
            seq![n, t_q, t_kv],
        ),
        program::broadcast_shape(seq![n, t_q, t_kv], seq![n, t_q, t_kv]) == Some(
            seq![n, t_q, t_kv],
        ),
{
    reveal_with_fuel(program::broadcast_shape, 4);
    let sc = seq![n, t_q, t_kv];
    let two = seq![n, t_q];
    let one = seq![n];
    let none = Seq::<usize>::empty();
    assert(sc.drop_last() =~= two && two.drop_last() =~= one && one.drop_last() =~= none);
    let m2 = seq![t_q, t_kv];
    assert(m2.drop_last() =~= seq![t_q] && seq![t_q].drop_last() =~= none);
    let m3 = seq![1usize, t_q, t_kv];
    let m32 = seq![1usize, t_q];
    let m31 = seq![1usize];
    assert(m3.drop_last() =~= m32 && m32.drop_last() =~= m31 && m31.drop_last() =~= none);
    assert(program::broadcast_shape(one, none) == Some(one));
    assert(program::broadcast_shape(none, none) == Some(none));
    assert(one.push(t_q) =~= two && two.push(t_kv) =~= sc && none.push(n) =~= one);
    assert(program::broadcast_shape(one, m31) == Some(one));
    assert(program::broadcast_shape(one, one) == Some(one));
    assert(program::broadcast_shape(two, seq![t_q]) == Some(two));
    assert(program::broadcast_shape(two, m32) == Some(two));
    assert(program::broadcast_shape(two, two) == Some(two));
}

/// Single-head attention keeps the shape `[1, T, D]`.
pub proof fn law_single_head_shape(a: SingleHeadAttention, t: usize)
    requires
        a.wf(),
    ensures
        ({
            let d = a.q_proj.in_features;
            emit_single_head(a, t, d).output_shape(
                seq![seq![1usize, t, d]] + projection_shapes(
                    a.q_proj,
                    a.k_proj,
                    a.v_proj,
                    a.o_proj,
                ),
            ) == Some(seq![1usize, t, d])
        }),
{
    let d = a.q_proj.in_features;
    let flat = seq![t, d];
    let full = seq![1usize, t, d];
    let head = seq![full];
    let env = head + projection_shapes(a.q_proj, a.k_proj, a.v_proj, a.o_proj);
    lemma_projection_shapes(env, head, a.q_proj, a.k_proj, a.v_proj, a.o_proj);
    assert(env[0] == full);
    program::lemma_products(t, d, 0, 0);
    program::lemma_products(1, t, d, 0);
    assert(1 * t * d == t * d) by (nonlinear_arith);
    assert(flat.drop_last().push(d) =~= flat);
    let kf = 1 + a.q_proj.count();
    let vf = kf + a.k_proj.count();
    let of = vf + a.v_proj.count();
    let p0 = ProgModel::start(of + a.o_proj.count());
    assert(p0.shapes(env) == Some(env));
    assert(full.update(0, full[0]).update(0, full[0]) =~= full);
    program::lemma_emit1(p0, env, env, OpModel::Transpose(0, 0), 0, full);
    let p1 = p0.emit(OpModel::Transpose(0, 0), seq![0]);
    let e1 = env.push(full);
    program::lemma_emit1(p1, env, e1, OpModel::Detach(flat), p1.result, flat);
    let px = p1.emit(OpModel::Detach(flat), seq![p1.result]);
    let ex = e1.push(flat);
    let eq = lemma_project_shape(px, env, ex, a.q_proj, px.result, 1, flat);
    let pq = project(px, a.q_proj, px.result, 1, flat);
    let ek = lemma_project_shape(pq, env, eq, a.k_proj, px.result, kf, flat);
    let pk = project(pq, a.k_proj, px.result, kf, flat);
    let ev = lemma_project_shape(pk, env, ek, a.v_proj, px.result, vf, flat);
    let pv = project(pk, a.v_proj, px.result, vf, flat);
    program::lemma_emit1(pv, env, ev, OpModel::Detach(full), pq.result, full);
    let q3 = pv.emit(OpModel::Detach(full), seq![pq.result]);
    let eq3 = ev.push(full);
    program::lemma_emit1(q3, env, eq3, OpModel::Detach(full), pk.result, full);
    let k3 = q3.emit(OpModel::Detach(full), seq![pk.result]);
    let ek3 = eq3.push(full);
    program::lemma_emit1(k3, env, ek3, OpModel::Detach(full), pv.result, full);
    let v3 = k3.emit(OpModel::Detach(full), seq![pv.result]);
    let ev3 = ek3.push(full);
    let ec = lemma_core_shape(
        v3,
        env,
        ev3,
        q3.result,
        k3.result,
        v3.result,
        d as nat,
        None,
        1,
        t,
        t,
        d,
    );
    let pc = core_block(v3, q3.result, k3.result, v3.result, d as nat, None);
    assert(pc == emit_core(v3, q3.result, k3.result, v3.result, d as nat, None)) by {
        reveal(core_block);
    }
    program::lemma_emit1(pc, env, ec, OpModel::Detach(flat), pc.result, flat);
    let p2 = pc.emit(OpModel::Detach(flat), seq![pc.result]);
    let e2 = ec.push(flat);
    let eo = lemma_project_shape(p2, env, e2, a.o_proj, p2.result, of, flat);
    let po = project(p2, a.o_proj, p2.result, of, flat);
    program::lemma_emit1(po, env, eo, OpModel::Detach(full), po.result, full);
}

/// The elements of a row-major `[b, m, n, d]` tensor after its two middle axes
/// are exchanged.
pub open spec fn exchanged<T>(x: Seq<T>, m: int, n: int, d: int) -> Seq<T> {
    Seq::new(
        x.len(),
        |i: int|
            {
                let c = i % d;
                let j = i / d;
                x[blocks::at4(j / m / n, j % m, j / m % n, c, m, n, d)]
            },
    )
}

/// Splitting into heads and merging them again gives every element back: the
/// reshapes leave the elements in place, and exchanging the sequence and head
/// axes twice undoes itself.
pub proof fn law_merge_undoes_split<T>(x: Seq<T>, b: int, t: int, h: int, hd: int)
    requires
        b >= 0 && t >= 0 && h >= 0 && hd >= 0,
        x.len() == b * t * h * hd,
    ensures
        exchanged(exchanged(x, t, h, hd), h, t, hd) == x,
{
    let y = exchanged(x, t, h, hd);
    let z = exchanged(y, h, t, hd);
    assert forall|i: int| 0 <= i < x.len() implies z[i] == x[i] by {
        assert(hd > 0 && h > 0 && t > 0) by (nonlinear_arith)
            requires
                0 < b * t * h * hd,
                b >= 0 && t >= 0 && h >= 0 && hd >= 0,
        ;
        // i names [bi, ti, hi, c] in x
        blocks::lemma_at_surjective(i, hd, b * t * h);
        let c = i % hd;
        let j = i / hd;
        blocks::lemma_at_surjective(j, h, b * t);
        let hi = j % h;
        let bt = j / h;
        blocks::lemma_at_surjective(bt, t, b);
        let ti = bt % t;
        let bi = bt / t;
        assert(i == blocks::at4(bi, ti, hi, c, t, h, hd));
        // z[i] reads y at [bi, hi, ti, c]
        let k = blocks::at4(bi, hi, ti, c, h, t, hd);
        assert(z[i] == y[k]);
        blocks::lemma_at4(bi, hi, ti, c, b, h, t, hd);
        assert(b * h * t * hd == b * t * h * hd) by (nonlinear_arith);
        assert(b * h * (t * hd) == b * h * t * hd) by (nonlinear_arith);
        // y[k] reads x at [bi, ti, hi, c]
        let kj = (bi * h + hi) * t + ti;
        assert(k == kj * hd + c);
        assert(k / hd == kj && k % hd == c) by (nonlinear_arith)
            requires
                k == kj * hd + c,
                0 <= c < hd,
        ;
        let kb = bi * h + hi;
        assert(kj / t == kb && kj % t == ti) by (nonlinear_arith)
            requires
                kj == kb * t + ti,
                0 <= ti < t,
        ;
        assert(kb / h == bi && kb % h == hi) by (nonlinear_arith)
            requires
                kb == bi * h + hi,
                0 <= hi < h,
        ;
        assert(y[k] == x[blocks::at4(bi, ti, hi, c, t, h, hd)]);
    }
    assert(z =~= x);
}

} // verus!
