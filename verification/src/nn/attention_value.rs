//! What the attention layers compute, element by element.
use crate::nn::attention;
use crate::nn::attention::{MultiHeadAttention, SingleHeadAttention};
use crate::nn::linear;
use crate::nn::linear::Linear;
use crate::nn::meaning;
use crate::nn::meaning::Num;
use crate::nn::module::Module;
use crate::nn::program;
use crate::nn::program::{Dense, OpModel, ProgModel};
use vstd::prelude::*;

verus! {

/// One entry of attention for one query: the weights are the softmax over the
/// keys of the scaled dot products of the query with each key, plus the mask's
/// entry where there is one, and the entry is the sum of the weights times the
/// values.
pub open spec fn attended<T>(
    num: Num<T>,
    width: nat,
    keys: int,
    q: spec_fn(int) -> T,
    k: spec_fn(int, int) -> T,
    v: spec_fn(int) -> T,
    mask: spec_fn(int) -> Option<T>,
) -> T {
    let score = |s: int| scored(num, width, q, k, mask, s);
    num.sum(keys, |s: int| (num.mul)(num.softmax(keys, score, s), v(s)))
}

/// The score of key `s`.
pub open spec fn scored<T>(
    num: Num<T>,
    width: nat,
    q: spec_fn(int) -> T,
    k: spec_fn(int, int) -> T,
    mask: spec_fn(int) -> Option<T>,
    s: int,
) -> T {
    let dot = (num.mul)(
        num.sum(width as int, |l: int| (num.mul)(q(l), k(s, l))),
        (num.div)(num.one, (num.sqrt)((num.of_nat)(width))),
    );
    match mask(s) {
        Some(m) => (num.add)(dot, m),
        None => dot,
    }
}

/// Attention depends on the entries alone.
pub proof fn lemma_attended_congruent<T>(
    num: Num<T>,
    width: nat,
    keys: int,
    q: spec_fn(int) -> T,
    k: spec_fn(int, int) -> T,
    v: spec_fn(int) -> T,
    mask: spec_fn(int) -> Option<T>,
    q2: spec_fn(int) -> T,
    k2: spec_fn(int, int) -> T,
    v2: spec_fn(int) -> T,
    mask2: spec_fn(int) -> Option<T>,
)
    requires
        forall|l: int| 0 <= l < width ==> #[trigger] q(l) == q2(l),
        forall|s: int, l: int|
            0 <= s < keys && 0 <= l < width ==> #[trigger] k(s, l) == k2(s, l),
        forall|s: int| 0 <= s < keys ==> #[trigger] v(s) == v2(s),
        forall|s: int| 0 <= s < keys ==> #[trigger] mask(s) == mask2(s),
    ensures
        attended(num, width, keys, q, k, v, mask) == attended(
            num,
            width,
            keys,
            q2,
            k2,
            v2,
            mask2,
        ),
{
    let f = |s: int| scored(num, width, q, k, mask, s);
    let g = |s: int| scored(num, width, q2, k2, mask2, s);
    assert forall|s: int| 0 <= s < keys implies #[trigger] f(s) == g(s) by {
        let a = |l: int| (num.mul)(q(l), k(s, l));
        let b = |l: int| (num.mul)(q2(l), k2(s, l));
        assert forall|l: int| 0 <= l < width implies #[trigger] a(l) == b(l) by {
            assert(q(l) == q2(l) && k(s, l) == k2(s, l));
        }
        meaning::lemma_sum_congruent(num, width as int, a, b);
        assert(mask(s) == mask2(s));
    }
    let a = |s: int| (num.mul)(num.softmax(keys, f, s), v(s));
    let b = |s: int| (num.mul)(num.softmax(keys, g, s), v2(s));
    assert forall|s: int| 0 <= s < keys implies #[trigger] a(s) == b(s) by {
        meaning::lemma_softmax_congruent(num, keys, f, g, s);
        assert(v(s) == v2(s));
    }
    meaning::lemma_sum_congruent(num, keys, a, b);
}

/// The mask's entry for score `[g, i, s]`.
pub open spec fn masked_at<T>(mask: Option<Dense<T>>, g: int, i: int) -> spec_fn(
    int,
) -> Option<T> {
    |s: int|
        match mask {
            Some(m) => Some(m.at(meaning::broadcast_index(m.shape, meaning::ix3(g, i, s)))),
            None => None,
        }
}

/// The mask goes with scores of shape `[n, t, keys]`.
pub open spec fn mask_goes<T>(mask: Option<Dense<T>>, n: usize, t: usize, keys: usize) -> bool {
    mask matches Some(m) ==> program::broadcast_shape(seq![n, t, keys], m.shape) == Some(
        seq![n, t, keys],
    )
}

/// What the steps of attention compute on `[n, t, d]` queries, `[n, keys, d]`
/// keys and `[n, keys, w]` values.
#[verifier::rlimit(60)]
#[verifier::spinoff_prover]
pub proof fn lemma_core_value<T>(
    num: Num<T>,
    p: ProgModel,
    inputs: Seq<Dense<T>>,
    q: nat,
    k: nat,
    v: nat,
    mask: Option<nat>,
    n: usize,
    t: usize,
    keys: usize,
    d: usize,
    w: usize,
)
    requires
        inputs.len() == p.inputs,
        q < meaning::values(num, p, inputs).len(),
        k < meaning::values(num, p, inputs).len(),
        v < meaning::values(num, p, inputs).len(),
        mask matches Some(m) ==> m < meaning::values(num, p, inputs).len() && mask_goes(
            Some(meaning::values(num, p, inputs)[m as int]),
            n,
            t,
            keys,
        ),
        meaning::values(num, p, inputs)[q as int].shape == seq![n, t, d],
        meaning::values(num, p, inputs)[k as int].shape == seq![n, keys, d],
        meaning::values(num, p, inputs)[v as int].shape == seq![n, keys, w],
    ensures
        ({
            let e = meaning::values(num, p, inputs);
            let r = attention::emit_core(p, q, k, v, d as nat, mask);
            let y = meaning::computes(num, r, inputs);
            let mv = match mask {
                Some(m) => Some(e[m as int]),
                None => None,
            };
            &&& meaning::goes_on(num, p, r, inputs)
            &&& y.shape == seq![n, t, w]
            &&& forall|g: int, i: int, c: int| #![trigger y.at(meaning::ix3(g, i, c))]
                0 <= g < n && 0 <= i < t && 0 <= c < w ==> y.at(meaning::ix3(g, i, c)) == attended(
                    num,
                    d as nat,
                    keys as int,
                    |l: int| e[q as int].at(meaning::ix3(g, i, l)),
                    |s: int, l: int| e[k as int].at(meaning::ix3(g, s, l)),
                    |s: int| e[v as int].at(meaning::ix3(g, s, c)),
                    masked_at(mv, g, i),
                )
        }),
{
    let e = meaning::values(num, p, inputs);
    let r = attention::emit_core(p, q, k, v, d as nat, mask);
    let y = meaning::computes(num, r, inputs);
    let mv = match mask {
        Some(m) => Some(e[m as int]),
        None => None,
    };
    let qt = e[q as int];
    let kt = e[k as int];
    let vt = e[v as int];
    let p1 = p.emit(OpModel::Transpose(1, 2), seq![k]);
    meaning::lemma_step(num, p, inputs, OpModel::Transpose(1, 2), seq![k]);
    let k2 = meaning::computes(num, p1, inputs);
    let s1 = seq![n, d, keys];
    assert(k2.shape =~= s1);
    let p2 = p1.emit(OpModel::Bmm, seq![q, p1.result]);
    meaning::lemma_step(num, p1, inputs, OpModel::Bmm, seq![q, p1.result]);
    meaning::lemma_goes_on(num, p, p1, p2, inputs);
    let raw = meaning::computes(num, p2, inputs);
    let sc = seq![n, t, keys];
    assert(meaning::values(num, p1, inputs)[q as int] == qt);
    assert(raw == meaning::meaning(num, OpModel::Bmm, seq![qt, k2]));
    assert(raw.shape =~= sc);
    let p3 = p2.emit(OpModel::InvSqrt(d as nat), seq![]);
    meaning::lemma_step(num, p2, inputs, OpModel::InvSqrt(d as nat), seq![]);
    meaning::lemma_goes_on(num, p, p2, p3, inputs);
    let inv = meaning::computes(num, p3, inputs);
    let p4 = p3.emit(OpModel::Mul, seq![p2.result, p3.result]);
    meaning::lemma_step(num, p3, inputs, OpModel::Mul, seq![p2.result, p3.result]);
    meaning::lemma_goes_on(num, p, p3, p4, inputs);
    let scaled = meaning::computes(num, p4, inputs);
    assert(meaning::values(num, p3, inputs)[p2.result as int] == raw);
    assert(scaled == meaning::meaning(num, OpModel::Mul, seq![raw, inv]));
    program::lemma_broadcasts(sc);
    assert(scaled.shape == sc);
    let p5 = match mask {
        Some(m) => p4.emit(OpModel::Add, seq![p4.result, m]),
        None => p4,
    };
    if mask is Some {
        let m = mask->0;
        meaning::lemma_step(num, p4, inputs, OpModel::Add, seq![p4.result, m]);
        meaning::lemma_goes_on(num, p, p4, p5, inputs);
        assert(meaning::values(num, p4, inputs)[m as int] == e[m as int]);
        assert(meaning::computes(num, p5, inputs) == meaning::meaning(
            num,
            OpModel::Add,
            seq![scaled, e[m as int]],
        ));
    }
    let scores = meaning::computes(num, p5, inputs);
    assert(scores.shape == sc);
    let p6 = p5.emit(OpModel::Softmax(2), seq![p5.result]);
    meaning::lemma_step(num, p5, inputs, OpModel::Softmax(2), seq![p5.result]);
    meaning::lemma_goes_on(num, p, p5, p6, inputs);
    let attn = meaning::computes(num, p6, inputs);
    assert(attn == meaning::meaning(num, OpModel::Softmax(2), seq![scores]));
    assert(attn.shape == sc);
    meaning::lemma_step(num, p6, inputs, OpModel::Bmm, seq![p6.result, v]);
    meaning::lemma_goes_on(num, p, p6, r, inputs);
    assert(meaning::values(num, p6, inputs)[v as int] == vt);
    assert(y == meaning::meaning(num, OpModel::Bmm, seq![attn, vt]));
    let out = seq![n, t, w];
    assert(y.shape =~= out);
    assert forall|g: int, i: int, c: int| #![trigger y.at(meaning::ix3(g, i, c))] 0 <= g < n && 0
        <= i < t && 0 <= c < w implies y.at(meaning::ix3(g, i, c)) == attended(
        num,
        d as nat,
        keys as int,
        |l: int| qt.at(meaning::ix3(g, i, l)),
        |s: int, l: int| kt.at(meaning::ix3(g, s, l)),
        |s: int| vt.at(meaning::ix3(g, s, c)),
        masked_at(mv, g, i),
    ) by {
        let qf = |l: int| qt.at(meaning::ix3(g, i, l));
        let kf = |s: int, l: int| kt.at(meaning::ix3(g, s, l));
        let vf = |s: int| vt.at(meaning::ix3(g, s, c));
        let mf = masked_at(mv, g, i);
        let score = |s: int| scored(num, d as nat, qf, kf, mf, s);
        assert forall|s: int| 0 <= s < keys implies #[trigger] scores.at(meaning::ix3(g, i, s))
            == score(s) by {
            lemma_score_at(num, qt, kt, k2, raw, inv, scaled, n, t, keys, d, g, i, s);
            let a = |l: int|
                (num.mul)(qt.at(meaning::ix3(g, i, l)), kt.at(meaning::ix3(g, s, l)));
            let b = |l: int| (num.mul)(qf(l), kf(s, l));
            assert forall|l: int| 0 <= l < d implies #[trigger] a(l) == b(l) by {
                assert(qf(l) == qt.at(meaning::ix3(g, i, l)));
                assert(kf(s, l) == kt.at(meaning::ix3(g, s, l)));
            }
            meaning::lemma_sum_congruent(num, d as int, a, b);
            let idx = meaning::ix3(g, i, s);
            assert(meaning::inside(sc, idx));
            meaning::lemma_table::<T>(sc, idx);
            assert(idx.len() == 3);
            meaning::lemma_broadcast_same(sc, idx);
        }
        let idx = meaning::ix3(g, i, c);
        assert(meaning::inside(out, idx));
        meaning::lemma_table::<T>(out, idx);
        let a = |l: int|
            (num.mul)(
                attn.at(meaning::ix3(idx[0], idx[1], l)),
                vt.at(meaning::ix3(idx[0], l, idx[2])),
            );
        assert(y.at(idx) == num.sum(keys as int, a));
        let b = |s: int| (num.mul)(num.softmax(keys as int, score, s), vf(s));
        assert forall|s: int| 0 <= s < keys implies #[trigger] a(s) == b(s) by {
            let at = meaning::ix3(g, i, s);
            assert(meaning::inside(sc, at));
            meaning::lemma_table::<T>(sc, at);
            let row = |l: int| scores.at(at.update(2, l));
            assert(attn.at(at) == num.softmax(keys as int, row, s));
            assert forall|l: int| 0 <= l < keys implies #[trigger] row(l) == score(l) by {
                assert(at.update(2, l) =~= meaning::ix3(g, i, l));
                assert(scores.at(meaning::ix3(g, i, l)) == score(l));
            }
            meaning::lemma_softmax_congruent(num, keys as int, row, score, s);
        }
        meaning::lemma_sum_congruent(num, keys as int, a, b);
    }
}

/// A scaled score.
proof fn lemma_score_at<T>(
    num: Num<T>,
    qt: Dense<T>,
    kt: Dense<T>,
    k2: Dense<T>,
    raw: Dense<T>,
    inv: Dense<T>,
    scaled: Dense<T>,
    n: usize,
    t: usize,
    keys: usize,
    d: usize,
    g: int,
    i: int,
    s: int,
)
    requires
        qt.shape == seq![n, t, d],
        kt.shape == seq![n, keys, d],
        k2 == meaning::meaning(num, OpModel::Transpose(1, 2), seq![kt]),
        raw == meaning::meaning(num, OpModel::Bmm, seq![qt, k2]),
        inv == meaning::meaning(num, OpModel::InvSqrt(d as nat), seq![]),
        scaled == meaning::meaning(num, OpModel::Mul, seq![raw, inv]),
        0 <= g < n,
        0 <= i < t,
        0 <= s < keys,
    ensures
        scaled.at(meaning::ix3(g, i, s)) == (num.mul)(
            num.sum(
                d as int,
                |l: int| (num.mul)(qt.at(meaning::ix3(g, i, l)), kt.at(meaning::ix3(g, s, l))),
            ),
            (num.div)(num.one, (num.sqrt)((num.of_nat)(d as nat))),
        ),
{
    let idx = meaning::ix3(g, i, s);
    let sc = seq![n, t, keys];
    let s1 = seq![n, d, keys];
    assert(k2.shape =~= s1);
    assert(raw.shape =~= sc);
    program::lemma_broadcasts(sc);
    assert(inv.shape =~= seq![]);
    assert(meaning::inside(sc, idx));
    meaning::lemma_table::<T>(sc, idx);
    let f = |l: int|
        (num.mul)(
            qt.at(meaning::ix3(idx[0], idx[1], l)),
            k2.at(meaning::ix3(idx[0], l, idx[2])),
        );
    let h = |l: int| (num.mul)(qt.at(meaning::ix3(g, i, l)), kt.at(meaning::ix3(g, s, l)));
    assert forall|l: int| 0 <= l < d implies #[trigger] f(l) == h(l) by {
        let at = meaning::ix3(g, l, s);
        assert(meaning::inside(s1, at));
        meaning::lemma_table::<T>(s1, at);
        assert(meaning::swapped(at, 1, 2) =~= meaning::ix3(g, s, l));
    }
    meaning::lemma_sum_congruent(num, d as int, f, h);
    assert(raw.at(idx) == num.sum(d as int, f));
    meaning::lemma_broadcast_same(sc, idx);
    assert(inv.at(meaning::broadcast_index(inv.shape, idx)) == inv.data[0]);
}

/// Stateless attention on `[b, t, d]` queries, `[b, keys, d]` keys and values:
/// each entry is the attention of its query row to the keys and the values of
/// the same batch entry.
pub proof fn law_sdp_computes<T>(
    num: Num<T>,
    q: Dense<T>,
    k: Dense<T>,
    v: Dense<T>,
    b: usize,
    t: usize,
    keys: usize,
    d: usize,
    g: int,
    i: int,
    c: int,
)
    requires
        q.shape == seq![b, t, d],
        k.shape == seq![b, keys, d],
        v.shape == seq![b, keys, d],
        0 <= g < b,
        0 <= i < t,
        0 <= c < d,
    ensures
        meaning::computes(
            num,
            attention::emit_core(ProgModel::start(3), 0, 1, 2, d as nat, None),
            seq![q, k, v],
        ).at(meaning::ix3(g, i, c)) == attended(
            num,
            d as nat,
            keys as int,
            |l: int| q.at(meaning::ix3(g, i, l)),
            |s: int, l: int| k.at(meaning::ix3(g, s, l)),
            |s: int| v.at(meaning::ix3(g, s, c)),
            |s: int| None,
        ),
{
    let inputs = seq![q, k, v];
    let p = ProgModel::start(3);
    assert(meaning::values(num, p, inputs) == inputs);
    lemma_core_value(num, p, inputs, 0, 1, 2, None, b, t, keys, d, d);
    let y = meaning::computes(
        num,
        attention::emit_core(p, 0, 1, 2, d as nat, None),
        inputs,
    );
    let none: Option<Dense<T>> = None;
    let qf = |l: int| q.at(meaning::ix3(g, i, l));
    let kf = |s: int, l: int| k.at(meaning::ix3(g, s, l));
    let vf = |s: int| v.at(meaning::ix3(g, s, c));
    lemma_attended_congruent(
        num,
        d as nat,
        keys as int,
        qf,
        kf,
        vf,
        masked_at(none, g, i),
        qf,
        kf,
        vf,
        |s: int| None,
    );
    assert(y.at(meaning::ix3(g, i, c)) == attended(
        num,
        d as nat,
        keys as int,
        qf,
        kf,
        vf,
        masked_at(none, g, i),
    ));
}

/// The weight and, where there is one, the bias of an affine layer.
pub struct Affine<T> {
    pub w: Dense<T>,
    pub b: Option<Dense<T>>,
}

impl<T> Affine<T> {
    /// The tensors in the order of the layer's parameters.
    pub open spec fn params(self) -> Seq<Dense<T>> {
        match self.b {
            Some(b) => seq![self.w, b],
            None => seq![self.w],
        }
    }

    /// The tensors are the layer's parameters.
    pub open spec fn fits(self, l: Linear) -> bool {
        &&& self.w.shape == seq![l.in_features, l.out_features]
        &&& self.b is Some == l.bias is Some
    }

    /// Entry `j` of the layer's output for row `[g, i]` of `x`.
    pub open spec fn at(self, num: Num<T>, x: Dense<T>, g: int, i: int, j: int) -> T {
        let v = num.sum(
            self.w.shape[0] as int,
            |l: int| (num.mul)(x.at(meaning::ix3(g, i, l)), self.w.at(meaning::ix2(l, j))),
        );
        match self.b {
            Some(c) => (num.add)(v, c.at(meaning::ix1(j))),
            None => v,
        }
    }
}

/// The values from `first` on are the layer's parameters.
pub open spec fn holds<T>(e: Seq<Dense<T>>, a: Affine<T>, first: nat) -> bool {
    &&& first < e.len()
    &&& e[first as int] == a.w
    &&& a.b matches Some(b) ==> first + 1 < e.len() && e[first as int + 1] == b
}

proof fn lemma_holds_on<T>(
    num: Num<T>,
    p: ProgModel,
    q: ProgModel,
    inputs: Seq<Dense<T>>,
    a: Affine<T>,
    first: nat,
)
    requires
        meaning::goes_on(num, p, q, inputs),
        holds(meaning::values(num, p, inputs), a, first),
    ensures
        holds(meaning::values(num, q, inputs), a, first),
{
    let e = meaning::values(num, p, inputs);
    let f = meaning::values(num, q, inputs);
    assert(f[first as int] == e[first as int]);
    if a.b is Some {
        assert(f[first as int + 1] == e[first as int + 1]);
    }
}

/// What a projection of a `[b, t, d]` value computes.
proof fn lemma_project_value<T>(
    num: Num<T>,
    p: ProgModel,
    inputs: Seq<Dense<T>>,
    l: Linear,
    a: Affine<T>,
    x: nat,
    first: nat,
    b: usize,
    t: usize,
)
    requires
        inputs.len() == p.inputs,
        a.fits(l),
        b * t <= usize::MAX,
        x < meaning::values(num, p, inputs).len(),
        meaning::values(num, p, inputs)[x as int].shape == seq![b, t, l.in_features],
        holds(meaning::values(num, p, inputs), a, first),
    ensures
        ({
            let e = meaning::values(num, p, inputs);
            let q = attention::project(p, l, x, first, seq![b, t, l.in_features]);
            let y = meaning::computes(num, q, inputs);
            &&& meaning::goes_on(num, p, q, inputs)
            &&& y.shape == seq![b, t, l.out_features]
            &&& forall|g: int, i: int, j: int| #![trigger y.at(meaning::ix3(g, i, j))]
                0 <= g < b && 0 <= i < t && 0 <= j < l.out_features ==> y.at(
                    meaning::ix3(g, i, j),
                ) == a.at(num, e[x as int], g, i, j)
        }),
{
    reveal(attention::project);
    let e = meaning::values(num, p, inputs);
    let shape = seq![b, t, l.in_features];
    let q = attention::project(p, l, x, first, shape);
    let y = meaning::computes(num, q, inputs);
    attention::lemma_rank3_accepted(b, t, l.in_features);
    linear::lemma_emit_linear_value(
        num,
        p,
        inputs,
        x,
        first,
        l.bias_id(first),
        shape,
        l.in_features,
        l.out_features,
    );
    assert(shape.drop_last() == seq![b, t]);
    assert(y.shape =~= seq![b, t, l.out_features]);
    let bv = match l.bias_id(first) {
        Some(c) => Some(e[c as int]),
        None => None,
    };
    assert(bv == a.b);
    assert forall|g: int, i: int, j: int| #![trigger y.at(meaning::ix3(g, i, j))] 0 <= g < b && 0
        <= i < t && 0 <= j < l.out_features implies y.at(meaning::ix3(g, i, j)) == a.at(
        num,
        e[x as int],
        g,
        i,
        j,
    ) by {
        let lead = meaning::ix2(g, i);
        assert(meaning::inside(seq![b, t], lead));
        assert(lead.push(j) =~= meaning::ix3(g, i, j));
        assert(y.at(lead.push(j)) == meaning::affine_at(num, e[x as int], a.w, bv, lead, j));
        let f = |k: int| (num.mul)(e[x as int].at(lead.push(k)), a.w.at(meaning::ix2(k, j)));
        let h = |k: int|
            (num.mul)(e[x as int].at(meaning::ix3(g, i, k)), a.w.at(meaning::ix2(k, j)));
        assert forall|k: int| 0 <= k < a.w.shape[0] implies #[trigger] f(k) == h(k) by {
            assert(lead.push(k) =~= meaning::ix3(g, i, k));
        }
        meaning::lemma_sum_congruent(num, a.w.shape[0] as int, f, h);
    }
}

/// A tensor cut into heads: head `r` of batch entry `g` holds the features
/// from `r * hd` on.
pub open spec fn is_split<T>(x: Dense<T>, y: Dense<T>, b: usize, t: usize, h: usize, hd: usize) -> bool {
    &&& y.shape == seq![(b * h) as usize, t, hd]
    &&& forall|g: int, r: int, i: int, c: int| #![trigger head_at(y, h, g, r, i, c)]
        0 <= g < b && 0 <= r < h && 0 <= i < t && 0 <= c < hd ==> head_at(y, h, g, r, i, c)
            == x.at(meaning::ix3(g, i, r * hd + c))
}

/// Entry `[i, c]` of head `r` of batch entry `g`.
pub open spec fn head_at<T>(y: Dense<T>, h: usize, g: int, r: int, i: int, c: int) -> T {
    y.at(meaning::ix3(g * h + r, i, c))
}

/// What splitting into heads computes.
#[verifier::spinoff_prover]
proof fn lemma_split_value<T>(
    num: Num<T>,
    p: ProgModel,
    inputs: Seq<Dense<T>>,
    x: nat,
    b: usize,
    t: usize,
    h: usize,
    hd: usize,
    d: usize,
)
    requires
        inputs.len() == p.inputs,
        h * hd == d,
        b * h <= usize::MAX,
        x < meaning::values(num, p, inputs).len(),
        meaning::values(num, p, inputs)[x as int].shape == seq![b, t, d],
    ensures
        ({
            let q = attention::emit_split(p, x, b, t, h, hd);
            &&& meaning::goes_on(num, p, q, inputs)
            &&& is_split(
                meaning::values(num, p, inputs)[x as int],
                meaning::computes(num, q, inputs),
                b,
                t,
                h,
                hd,
            )
        }),
{
    reveal(attention::emit_split);
    let a = meaning::values(num, p, inputs)[x as int];
    let q = attention::emit_split(p, x, b, t, h, hd);
    let y = meaning::computes(num, q, inputs);
    let s1 = seq![b, t, h, hd];
    let s2 = seq![b, h, t, hd];
    let s3 = seq![(b * h) as usize, t, hd];
    let p1 = p.emit(OpModel::Reshape(s1), seq![x]);
    meaning::lemma_step(num, p, inputs, OpModel::Reshape(s1), seq![x]);
    let a1 = meaning::computes(num, p1, inputs);
    let p2 = p1.emit(OpModel::Transpose(1, 2), seq![p1.result]);
    meaning::lemma_step(num, p1, inputs, OpModel::Transpose(1, 2), seq![p1.result]);
    let a2 = meaning::computes(num, p2, inputs);
    meaning::lemma_step(num, p2, inputs, OpModel::Reshape(s3), seq![p2.result]);
    meaning::lemma_goes_on(num, p, p1, p2, inputs);
    meaning::lemma_goes_on(num, p, p2, q, inputs);
    assert(a2.shape =~= s2);
    assert forall|g: int, r: int, i: int, c: int| #![trigger head_at(y, h, g, r, i, c)] 0 <= g < b
        && 0 <= r < h && 0 <= i < t && 0 <= c < hd implies head_at(y, h, g, r, i, c) == a.at(
        meaning::ix3(g, i, r * hd + c),
    ) by {
        let i3 = meaning::ix3(g * h + r, i, c);
        let i2 = meaning::ix4(g, r, i, c);
        let i1 = meaning::ix4(g, i, r, c);
        let i0 = meaning::ix3(g, i, r * hd + c);
        meaning::lemma_ravel_short(s3, i3);
        meaning::lemma_ravel_short(s2, i2);
        meaning::lemma_ravel_short(s1, i1);
        meaning::lemma_ravel_short(a.shape, i0);
        assert(y.at(i3) == a2.at(i2));
        assert(meaning::inside(s2, i2));
        meaning::lemma_table::<T>(s2, i2);
        assert(meaning::swapped(i2, 1, 2) =~= i1);
        assert(a2.at(i2) == a1.at(i1));
        assert(((g * t + i) * h + r) * hd + c == (g * t + i) * d + (r * hd + c))
            by (nonlinear_arith)
            requires
                h * hd == d,
        ;
        assert(a1.at(i1) == a.at(i0));
    }
}

/// What merging the heads computes: feature `r * hd + c` comes from entry `c`
/// of head `r`.
#[verifier::spinoff_prover]
proof fn lemma_merge_value<T>(
    num: Num<T>,
    p: ProgModel,
    inputs: Seq<Dense<T>>,
    x: nat,
    b: usize,
    t: usize,
    h: usize,
    hd: usize,
    d: usize,
    g: int,
    i: int,
    j: int,
)
    requires
        inputs.len() == p.inputs,
        h * hd == d,
        b * h <= usize::MAX,
        x < meaning::values(num, p, inputs).len(),
        meaning::values(num, p, inputs)[x as int].shape == seq![(b * h) as usize, t, hd],
    ensures
        ({
            let a = meaning::values(num, p, inputs)[x as int];
            let q = attention::emit_merge(p, x, b, t, h, hd, d);
            let y = meaning::computes(num, q, inputs);
            &&& meaning::goes_on(num, p, q, inputs)
            &&& y.shape == seq![b, t, d]
            &&& 0 <= g < b && 0 <= i < t && 0 <= j < d ==> 0 < hd && 0 <= j / (hd as int) < h && 0
                <= j % (hd as int) < hd && y.at(meaning::ix3(g, i, j)) == head_at(
                a,
                h,
                g,
                j / (hd as int),
                i,
                j % (hd as int),
            )
        }),
{
    reveal(attention::emit_merge);
    let a = meaning::values(num, p, inputs)[x as int];
    let q = attention::emit_merge(p, x, b, t, h, hd, d);
    let y = meaning::computes(num, q, inputs);
    let s1 = seq![b, h, t, hd];
    let s2 = seq![b, t, h, hd];
    let s3 = seq![b, t, d];
    let p1 = p.emit(OpModel::Reshape(s1), seq![x]);
    meaning::lemma_step(num, p, inputs, OpModel::Reshape(s1), seq![x]);
    let a1 = meaning::computes(num, p1, inputs);
    let p2 = p1.emit(OpModel::Transpose(1, 2), seq![p1.result]);
    meaning::lemma_step(num, p1, inputs, OpModel::Transpose(1, 2), seq![p1.result]);
    let a2 = meaning::computes(num, p2, inputs);
    meaning::lemma_step(num, p2, inputs, OpModel::Reshape(s3), seq![p2.result]);
    meaning::lemma_goes_on(num, p, p1, p2, inputs);
    meaning::lemma_goes_on(num, p, p2, q, inputs);
    assert(a2.shape =~= s2);
    if 0 <= g < b && 0 <= i < t && 0 <= j < d {
        let r = j / (hd as int);
        let c = j % (hd as int);
        assert(0 < hd && 0 <= r < h && 0 <= c < hd && j == r * hd + c) by (nonlinear_arith)
            requires
                0 <= j < d,
                h * hd == d,
                hd >= 0,
                r == j / (hd as int),
                c == j % (hd as int),
        ;
        let i3 = meaning::ix3(g, i, j);
        let i2 = meaning::ix4(g, i, r, c);
        let i1 = meaning::ix4(g, r, i, c);
        let i0 = meaning::ix3(g * h + r, i, c);
        meaning::lemma_ravel_short(s3, i3);
        meaning::lemma_ravel_short(s2, i2);
        meaning::lemma_ravel_short(s1, i1);
        meaning::lemma_ravel_short(a.shape, i0);
        assert(((g * t + i) * h + r) * hd + c == (g * t + i) * d + (r * hd + c))
            by (nonlinear_arith)
            requires
                h * hd == d,
        ;
        assert(y.at(i3) == a2.at(i2));
        assert(meaning::inside(s2, i2));
        meaning::lemma_table::<T>(s2, i2);
        assert(meaning::swapped(i2, 1, 2) =~= i1);
        assert(a2.at(i2) == a1.at(i1));
        assert(a1.at(i1) == a.at(i0));
    }
}

/// Entry `j` of the heads side by side, for query `i` of batch entry `g`: the
/// feature belongs to head `j / hd`; the head's attention compares the
/// projected query with the projected keys, and mixes the projected values.
pub open spec fn context_at<T>(
    num: Num<T>,
    q: Dense<T>,
    k: Dense<T>,
    v: Dense<T>,
    mask: Option<Dense<T>>,
    wq: Affine<T>,
    wk: Affine<T>,
    wv: Affine<T>,
    heads: int,
    hd: int,
    g: int,
    i: int,
    j: int,
) -> T {
    let r = j / hd;
    attended(
        num,
        hd as nat,
        k.shape[1] as int,
        |l: int| wq.at(num, q, g, i, r * hd + l),
        |s: int, l: int| wk.at(num, k, g, s, r * hd + l),
        |s: int| wv.at(num, v, g, s, j),
        masked_at(mask, g * heads + r, i),
    )
}

/// Entry `j` of multi-head attention: the output projection of the heads side
/// by side.
pub open spec fn multi_head_at<T>(
    num: Num<T>,
    q: Dense<T>,
    k: Dense<T>,
    v: Dense<T>,
    mask: Option<Dense<T>>,
    wq: Affine<T>,
    wk: Affine<T>,
    wv: Affine<T>,
    wo: Affine<T>,
    heads: int,
    hd: int,
    g: int,
    i: int,
    j: int,
) -> T {
    let x = num.sum(
        wo.w.shape[0] as int,
        |l: int|
            (num.mul)(
                context_at(num, q, k, v, mask, wq, wk, wv, heads, hd, g, i, l),
                wo.w.at(meaning::ix2(l, j)),
            ),
    );
    match wo.b {
        Some(c) => (num.add)(x, c.at(meaning::ix1(j))),
        None => x,
    }
}

/// What the steps of multi-head attention compute.
#[verifier::rlimit(60)]
#[verifier::spinoff_prover]
pub proof fn lemma_mha_value<T>(
    num: Num<T>,
    m: MultiHeadAttention,
    p: ProgModel,
    inputs: Seq<Dense<T>>,
    q: nat,
    k: nat,
    v: nat,
    mask: Option<nat>,
    first: nat,
    b: usize,
    t: usize,
    keys: usize,
    wq: Affine<T>,
    wk: Affine<T>,
    wv: Affine<T>,
    wo: Affine<T>,
    g: int,
    i: int,
    j: int,
)
    requires
        m.wf(),
        m.sizes_fit(b as int, t as int, keys as int),
        inputs.len() == p.inputs,
        wq.fits(m.q_proj) && wk.fits(m.k_proj) && wv.fits(m.v_proj) && wo.fits(m.o_proj),
        q < meaning::values(num, p, inputs).len(),
        k < meaning::values(num, p, inputs).len(),
        v < meaning::values(num, p, inputs).len(),
        meaning::values(num, p, inputs)[q as int].shape == seq![b, t, m.embed_dim],
        meaning::values(num, p, inputs)[k as int].shape == seq![b, keys, m.embed_dim],
        meaning::values(num, p, inputs)[v as int].shape == seq![b, keys, m.embed_dim],
        mask matches Some(x) ==> x < meaning::values(num, p, inputs).len() && mask_goes(
            Some(meaning::values(num, p, inputs)[x as int]),
            (b * m.num_heads) as usize,
            t,
            keys,
        ),
        holds(meaning::values(num, p, inputs), wq, first),
        holds(meaning::values(num, p, inputs), wk, first + m.q_proj.count()),
        holds(meaning::values(num, p, inputs), wv, first + m.q_proj.count() + m.k_proj.count()),
        holds(
            meaning::values(num, p, inputs),
            wo,
            first + m.q_proj.count() + m.k_proj.count() + m.v_proj.count(),
        ),
    ensures
        ({
            let e = meaning::values(num, p, inputs);
            let r = attention::emit_mha(m, p, q, k, v, mask, first, b, t, keys);
            let y = meaning::computes(num, r, inputs);
            let mv = match mask {
                Some(x) => Some(e[x as int]),
                None => None,
            };
            &&& meaning::goes_on(num, p, r, inputs)
            &&& y.shape == seq![b, t, m.embed_dim]
            &&& 0 <= g < b && 0 <= i < t && 0 <= j < m.embed_dim ==> y.at(meaning::ix3(g, i, j))
                == multi_head_at(
                num,
                e[q as int],
                e[k as int],
                e[v as int],
                mv,
                wq,
                wk,
                wv,
                wo,
                m.num_heads as int,
                m.head_dim as int,
                g,
                i,
                j,
            )
        }),
{
    let e = meaning::values(num, p, inputs);
    let d = m.embed_dim;
    let h = m.num_heads;
    let hd = m.head_dim;
    let n = (b * h) as usize;
    let qs = seq![b, t, d];
    let ks = seq![b, keys, d];
    let kf = first + m.q_proj.count();
    let vf = kf + m.k_proj.count();
    let of = vf + m.v_proj.count();
    let pq = attention::project(p, m.q_proj, q, first, qs);
    lemma_project_value(num, p, inputs, m.q_proj, wq, q, first, b, t);
    let yq = meaning::computes(num, pq, inputs);
    lemma_holds_on(num, p, pq, inputs, wk, kf);
    let pk = attention::project(pq, m.k_proj, k, kf, ks);
    assert(meaning::values(num, pq, inputs)[k as int] == e[k as int]);
    lemma_project_value(num, pq, inputs, m.k_proj, wk, k, kf, b, keys);
    let yk = meaning::computes(num, pk, inputs);
    meaning::lemma_goes_on(num, p, pq, pk, inputs);
    lemma_holds_on(num, p, pk, inputs, wv, vf);
    let pv = attention::project(pk, m.v_proj, v, vf, ks);
    assert(meaning::values(num, pk, inputs)[v as int] == e[v as int]);
    lemma_project_value(num, pk, inputs, m.v_proj, wv, v, vf, b, keys);
    let yv = meaning::computes(num, pv, inputs);
    meaning::lemma_goes_on(num, p, pk, pv, inputs);
    meaning::lemma_goes_on(num, pq, pk, pv, inputs);
    let hq = attention::emit_split(pv, pq.result, b, t, h, hd);
    assert(meaning::values(num, pv, inputs)[pq.result as int] == yq);
    lemma_split_value(num, pv, inputs, pq.result, b, t, h, hd, d);
    let sq = meaning::computes(num, hq, inputs);
    meaning::lemma_goes_on(num, pk, pv, hq, inputs);
    let hk = attention::emit_split(hq, pk.result, b, keys, h, hd);
    assert(meaning::values(num, hq, inputs)[pk.result as int] == yk);
    lemma_split_value(num, hq, inputs, pk.result, b, keys, h, hd, d);
    let sk = meaning::computes(num, hk, inputs);
    meaning::lemma_goes_on(num, pv, hq, hk, inputs);
    let hv = attention::emit_split(hk, pv.result, b, keys, h, hd);
    assert(meaning::values(num, hk, inputs)[pv.result as int] == yv);
    lemma_split_value(num, hk, inputs, pv.result, b, keys, h, hd, d);
    let sv = meaning::computes(num, hv, inputs);
    meaning::lemma_goes_on(num, hq, hk, hv, inputs);
    meaning::lemma_goes_on(num, pv, hk, hv, inputs);
    meaning::lemma_goes_on(num, p, pv, hv, inputs);
    assert(meaning::values(num, hv, inputs)[hq.result as int] == sq);
    assert(meaning::values(num, hv, inputs)[hk.result as int] == sk);
    if mask is Some {
        let x = mask->0;
        assert(meaning::values(num, hv, inputs)[x as int] == e[x as int]);
    }
    let pc = attention::core_block(hv, hq.result, hk.result, hv.result, hd as nat, mask);
    assert(pc == attention::emit_core(hv, hq.result, hk.result, hv.result, hd as nat, mask)) by {
        reveal(attention::core_block);
    }
    lemma_core_value(
        num,
        hv,
        inputs,
        hq.result,
        hk.result,
        hv.result,
        mask,
        n,
        t,
        keys,
        hd,
        hd,
    );
    let yc = meaning::computes(num, pc, inputs);
    meaning::lemma_goes_on(num, p, hv, pc, inputs);
    let pm = attention::emit_merge(pc, pc.result, b, t, h, hd, d);
    lemma_merge_value(num, pc, inputs, pc.result, b, t, h, hd, d, g, i, 0);
    let ym = meaning::computes(num, pm, inputs);
    meaning::lemma_goes_on(num, p, pc, pm, inputs);
    lemma_holds_on(num, p, pm, inputs, wo, of);
    let r = attention::project(pm, m.o_proj, pm.result, of, qs);
    lemma_project_value(num, pm, inputs, m.o_proj, wo, pm.result, of, b, t);
    meaning::lemma_goes_on(num, p, pm, r, inputs);
    let y = meaning::computes(num, r, inputs);
    let mv = match mask {
        Some(x) => Some(e[x as int]),
        None => None,
    };
    if 0 <= g < b && 0 <= i < t && 0 <= j < d {
        assert(y.at(meaning::ix3(g, i, j)) == wo.at(num, ym, g, i, j));
        let f = |l: int| (num.mul)(ym.at(meaning::ix3(g, i, l)), wo.w.at(meaning::ix2(l, j)));
        let f2 = |l: int|
            (num.mul)(
                context_at(
                    num,
                    e[q as int],
                    e[k as int],
                    e[v as int],
                    mv,
                    wq,
                    wk,
                    wv,
                    h as int,
                    hd as int,
                    g,
                    i,
                    l,
                ),
                wo.w.at(meaning::ix2(l, j)),
            );
        assert forall|l: int| 0 <= l < d implies #[trigger] f(l) == f2(l) by {
            lemma_merge_value(num, pc, inputs, pc.result, b, t, h, hd, d, g, i, l);
            lemma_context(
                num,
                e[q as int],
                e[k as int],
                e[v as int],
                mv,
                wq,
                wk,
                wv,
                yq,
                yk,
                yv,
                sq,
                sk,
                sv,
                yc,
                b,
                t,
                keys,
                h,
                hd,
                d,
                g,
                i,
                l,
            );
        }
        meaning::lemma_sum_congruent(num, d as int, f, f2);
    }
}

/// An entry of the merged heads.
#[verifier::spinoff_prover]
proof fn lemma_context<T>(
    num: Num<T>,
    q: Dense<T>,
    k: Dense<T>,
    v: Dense<T>,
    mask: Option<Dense<T>>,
    wq: Affine<T>,
    wk: Affine<T>,
    wv: Affine<T>,
    yq: Dense<T>,
    yk: Dense<T>,
    yv: Dense<T>,
    sq: Dense<T>,
    sk: Dense<T>,
    sv: Dense<T>,
    yc: Dense<T>,
    b: usize,
    t: usize,
    keys: usize,
    h: usize,
    hd: usize,
    d: usize,
    g: int,
    i: int,
    l: int,
)
    requires
        h * hd == d,
        b * h <= usize::MAX,
        k.shape == seq![b, keys, d],
        0 <= g < b,
        0 <= i < t,
        0 <= l < d,
        0 < hd,
        0 <= l / (hd as int) < h,
        0 <= l % (hd as int) < hd,
        forall|g: int, i: int, j: int| #![trigger yq.at(meaning::ix3(g, i, j))]
            0 <= g < b && 0 <= i < t && 0 <= j < d ==> yq.at(meaning::ix3(g, i, j)) == wq.at(
                num,
                q,
                g,
                i,
                j,
            ),
        forall|g: int, i: int, j: int| #![trigger yk.at(meaning::ix3(g, i, j))]
            0 <= g < b && 0 <= i < keys && 0 <= j < d ==> yk.at(meaning::ix3(g, i, j)) == wk.at(
                num,
                k,
                g,
                i,
                j,
            ),
        forall|g: int, i: int, j: int| #![trigger yv.at(meaning::ix3(g, i, j))]
            0 <= g < b && 0 <= i < keys && 0 <= j < d ==> yv.at(meaning::ix3(g, i, j)) == wv.at(
                num,
                v,
                g,
                i,
                j,
            ),
        is_split(yq, sq, b, t, h, hd),
        is_split(yk, sk, b, keys, h, hd),
        is_split(yv, sv, b, keys, h, hd),
        forall|g: int, i: int, c: int| #![trigger yc.at(meaning::ix3(g, i, c))]
            0 <= g < (b * h) as usize && 0 <= i < t && 0 <= c < hd ==> yc.at(meaning::ix3(g, i, c))
                == attended(
                num,
                hd as nat,
                keys as int,
                |l: int| sq.at(meaning::ix3(g, i, l)),
                |s: int, l: int| sk.at(meaning::ix3(g, s, l)),
                |s: int| sv.at(meaning::ix3(g, s, c)),
                masked_at(mask, g, i),
            ),
    ensures
        head_at(yc, h, g, l / (hd as int), i, l % (hd as int)) == context_at(
            num,
            q,
            k,
            v,
            mask,
            wq,
            wk,
            wv,
            h as int,
            hd as int,
            g,
            i,
            l,
        ),
{
    let r = l / (hd as int);
    let c = l % (hd as int);
    let n = g * h + r;
    assert(0 <= n < b * h) by (nonlinear_arith)
        requires
            n == g * h + r,
            0 <= g < b,
            0 <= r < h,
    ;
    assert(l == r * hd + c) by (nonlinear_arith)
        requires
            r == l / (hd as int),
            c == l % (hd as int),
            0 < hd,
    ;
    let q1 = |x: int| sq.at(meaning::ix3(n, i, x));
    let k1 = |s: int, x: int| sk.at(meaning::ix3(n, s, x));
    let v1 = |s: int| sv.at(meaning::ix3(n, s, c));
    let m1 = masked_at(mask, n, i);
    let q2 = |x: int| wq.at(num, q, g, i, r * (hd as int) + x);
    let k2 = |s: int, x: int| wk.at(num, k, g, s, r * (hd as int) + x);
    let v2 = |s: int| wv.at(num, v, g, s, l);
    let m2 = masked_at(mask, g * (h as int) + r, i);
    assert(yc.at(meaning::ix3(n, i, c)) == attended(num, hd as nat, keys as int, q1, k1, v1, m1));
    assert forall|x: int| 0 <= x < hd implies #[trigger] q1(x) == q2(x) by {
        assert(head_at(sq, h, g, r, i, x) == yq.at(meaning::ix3(g, i, r * hd + x)));
        assert(0 <= r * hd + x < h * hd) by (nonlinear_arith)
            requires
                0 <= r < h,
                0 <= x < hd,
        ;
    }
    assert forall|s: int, x: int| 0 <= s < keys && 0 <= x < hd implies #[trigger] k1(s, x) == k2(
        s,
        x,
    ) by {
        assert(head_at(sk, h, g, r, s, x) == yk.at(meaning::ix3(g, s, r * hd + x)));
        assert(0 <= r * hd + x < h * hd) by (nonlinear_arith)
            requires
                0 <= r < h,
                0 <= x < hd,
        ;
    }
    assert forall|s: int| 0 <= s < keys implies #[trigger] v1(s) == v2(s) by {
        assert(head_at(sv, h, g, r, s, c) == yv.at(meaning::ix3(g, s, r * hd + c)));
    }
    lemma_attended_congruent(num, hd as nat, keys as int, q1, k1, v1, m1, q2, k2, v2, m2);
}

/// Where the parameters of four projections stand behind the first inputs.
pub proof fn lemma_params_stand<T>(
    head: Seq<Dense<T>>,
    wq: Affine<T>,
    wk: Affine<T>,
    wv: Affine<T>,
    wo: Affine<T>,
)
    ensures
        ({
            let e = head + wq.params() + wk.params() + wv.params() + wo.params();
            let n = head.len();
            let a = wq.params().len();
            let b = wk.params().len();
            let c = wv.params().len();
            &&& e.len() == n + a + b + c + wo.params().len()
            &&& holds(e, wq, n)
            &&& holds(e, wk, n + a)
            &&& holds(e, wv, n + a + b)
            &&& holds(e, wo, n + a + b + c)
            &&& forall|i: int| 0 <= i < n ==> #[trigger] e[i] == head[i]
        }),
{
    let e = head + wq.params() + wk.params() + wv.params() + wo.params();
    let n = head.len() as int;
    let a = wq.params().len() as int;
    let b = wk.params().len() as int;
    let c = wv.params().len() as int;
    assert(e[n] == wq.params()[0]);
    assert(e[n + a] == wk.params()[0]);
    assert(e[n + a + b] == wv.params()[0]);
    assert(e[n + a + b + c] == wo.params()[0]);
    if wq.b is Some {
        assert(e[n + 1] == wq.params()[1]);
    }
    if wk.b is Some {
        assert(e[n + a + 1] == wk.params()[1]);
    }
    if wv.b is Some {
        assert(e[n + a + b + 1] == wv.params()[1]);
    }
    if wo.b is Some {
        assert(e[n + a + b + c + 1] == wo.params()[1]);
    }
}

/// Multi-head attention of `q` to `k` and `v` is
/// `o_proj(merge(softmax(q_heads k_heads^T / sqrt(head_dim) + mask) v_heads))`,
/// where the heads are those of `q_proj(q)`, `k_proj(k)` and `v_proj(v)`:
/// entry `j` for query `i` sums, over the features `l`, the attention of head
/// `l / head_dim` at `l` times the output weight. The inputs of the program are
/// the tensors, the mask where there is one, and the parameters in order.
pub proof fn law_attention_computes<T>(
    m: MultiHeadAttention,
    num: Num<T>,
    q: Dense<T>,
    k: Dense<T>,
    v: Dense<T>,
    mask: Option<Dense<T>>,
    wq: Affine<T>,
    wk: Affine<T>,
    wv: Affine<T>,
    wo: Affine<T>,
    b: usize,
    t: usize,
    keys: usize,
    g: int,
    i: int,
    j: int,
)
    requires
        m.wf(),
        m.sizes_fit(b as int, t as int, keys as int),
        q.shape == seq![b, t, m.embed_dim],
        k.shape == seq![b, keys, m.embed_dim],
        v.shape == seq![b, keys, m.embed_dim],
        mask_goes(mask, (b * m.num_heads) as usize, t, keys),
        wq.fits(m.q_proj) && wk.fits(m.k_proj) && wv.fits(m.v_proj) && wo.fits(m.o_proj),
        0 <= g < b,
        0 <= i < t,
        0 <= j < m.embed_dim,
    ensures
        ({
            let head = match mask {
                Some(x) => seq![q, k, v, x],
                None => seq![q, k, v],
            };
            let y = meaning::computes(
                num,
                attention::cross_program(m, mask is Some, b, t, keys),
                head + wq.params() + wk.params() + wv.params() + wo.params(),
            );
            &&& y.shape == seq![b, t, m.embed_dim]
            &&& y.at(meaning::ix3(g, i, j)) == multi_head_at(
                num,
                q,
                k,
                v,
                mask,
                wq,
                wk,
                wv,
                wo,
                m.num_heads as int,
                m.head_dim as int,
                g,
                i,
                j,
            )
        }),
{
    let head = match mask {
        Some(x) => seq![q, k, v, x],
        None => seq![q, k, v],
    };
    let inputs = head + wq.params() + wk.params() + wv.params() + wo.params();
    lemma_params_stand(head, wq, wk, wv, wo);
    let first: nat = if mask is Some {
        4
    } else {
        3
    };
    let p = ProgModel::start(first + m.count());
    assert(meaning::values(num, p, inputs) == inputs);
    assert(inputs[0] == head[0] && inputs[1] == head[1] && inputs[2] == head[2]);
    if mask is Some {
        assert(inputs[3] == head[3]);
    }
    let mid = if mask is Some {
        Some(3nat)
    } else {
        None
    };
    lemma_mha_value(num, m, p, inputs, 0, 1, 2, mid, first, b, t, keys, wq, wk, wv, wo, g, i, j);
}

/// Self-attention is attention of the input to itself: the queries, the keys
/// and the values are projections of the one input.
pub proof fn law_self_attention_computes<T>(
    m: MultiHeadAttention,
    num: Num<T>,
    x: Dense<T>,
    mask: Option<Dense<T>>,
    wq: Affine<T>,
    wk: Affine<T>,
    wv: Affine<T>,
    wo: Affine<T>,
    b: usize,
    t: usize,
    g: int,
    i: int,
    j: int,
)
    requires
        m.wf(),
        m.sizes_fit(b as int, t as int, t as int),
        x.shape == seq![b, t, m.embed_dim],
        mask_goes(mask, (b * m.num_heads) as usize, t, t),
        wq.fits(m.q_proj) && wk.fits(m.k_proj) && wv.fits(m.v_proj) && wo.fits(m.o_proj),
        0 <= g < b,
        0 <= i < t,
        0 <= j < m.embed_dim,
    ensures
        ({
            let head = match mask {
                Some(y) => seq![x, y],
                None => seq![x],
            };
            let y = meaning::computes(
                num,
                attention::self_program(m, mask is Some, b, t),
                head + wq.params() + wk.params() + wv.params() + wo.params(),
            );
            &&& y.shape == seq![b, t, m.embed_dim]
            &&& y.at(meaning::ix3(g, i, j)) == multi_head_at(
                num,
                x,
                x,
                x,
                mask,
                wq,
                wk,
                wv,
                wo,
                m.num_heads as int,
                m.head_dim as int,
                g,
                i,
                j,
            )
        }),
{
    let head = match mask {
        Some(y) => seq![x, y],
        None => seq![x],
    };
    let inputs = head + wq.params() + wk.params() + wv.params() + wo.params();
    lemma_params_stand(head, wq, wk, wv, wo);
    let first: nat = if mask is Some {
        2
    } else {
        1
    };
    let p = ProgModel::start(first + m.count());
    assert(meaning::values(num, p, inputs) == inputs);
    assert(inputs[0] == head[0]);
    if mask is Some {
        assert(inputs[1] == head[1]);
    }
    let mid = if mask is Some {
        Some(1nat)
    } else {
        None
    };
    lemma_mha_value(num, m, p, inputs, 0, 0, 0, mid, first, b, t, t, wq, wk, wv, wo, g, i, j);
}

/// The parameters of multi-head attention stand in the order of the
/// projections, and each is named after its projection.
pub proof fn law_attention_parameters(m: MultiHeadAttention)
    ensures
        ({
            let a = m.q_proj.count() as int;
            let b = a + m.k_proj.count();
            let c = b + m.v_proj.count();
            let names = m.param_names();
            let models = m.param_models();
            &&& names[0] == "q_proj."@ + "weight"@ && models[0] == m.q_proj.weight@
            &&& names[a] == "k_proj."@ + "weight"@ && models[a] == m.k_proj.weight@
            &&& names[b] == "v_proj."@ + "weight"@ && models[b] == m.v_proj.weight@
            &&& names[c] == "o_proj."@ + "weight"@ && models[c] == m.o_proj.weight@
            &&& m.q_proj.bias matches Some(x) ==> names[1] == "q_proj."@ + "bias"@ && models[1]
                == x@
            &&& m.k_proj.bias matches Some(x) ==> names[a + 1] == "k_proj."@ + "bias"@ && models[a
                + 1] == x@
            &&& m.v_proj.bias matches Some(x) ==> names[b + 1] == "v_proj."@ + "bias"@ && models[b
                + 1] == x@
            &&& m.o_proj.bias matches Some(x) ==> names[c + 1] == "o_proj."@ + "bias"@ && models[c
                + 1] == x@
        }),
{
}

/// With one key position each query attends to that key alone, whatever the
/// queries, the keys and the mask are: the result is the output projection of
/// the projected values.
pub proof fn law_one_key_gives_value<T>(
    num: Num<T>,
    q: Dense<T>,
    k: Dense<T>,
    v: Dense<T>,
    mask: Option<Dense<T>>,
    wq: Affine<T>,
    wk: Affine<T>,
    wv: Affine<T>,
    wo: Affine<T>,
    heads: int,
    hd: int,
    g: int,
    i: int,
    j: int,
)
    requires
        forall|a: T| #[trigger] (num.add)(num.zero, a) == a,
        forall|a: T| #[trigger] (num.mul)(num.one, a) == a,
        forall|a: T| (num.div)(#[trigger] (num.exp)(a), (num.exp)(a)) == num.one,
        k.shape[1] == 1,
    ensures
        multi_head_at(num, q, k, v, mask, wq, wk, wv, wo, heads, hd, g, i, j) == ({
            let x = num.sum(
                wo.w.shape[0] as int,
                |l: int| (num.mul)(wv.at(num, v, g, 0, l), wo.w.at(meaning::ix2(l, j))),
            );
            match wo.b {
                Some(c) => (num.add)(x, c.at(meaning::ix1(j))),
                None => x,
            }
        }),
{
    let f = |l: int|
        (num.mul)(
            context_at(num, q, k, v, mask, wq, wk, wv, heads, hd, g, i, l),
            wo.w.at(meaning::ix2(l, j)),
        );
    let h = |l: int| (num.mul)(wv.at(num, v, g, 0, l), wo.w.at(meaning::ix2(l, j)));
    assert forall|l: int| 0 <= l < wo.w.shape[0] implies #[trigger] f(l) == h(l) by {
        let r = l / hd;
        let qf = |x: int| wq.at(num, q, g, i, r * hd + x);
        let kf = |s: int, x: int| wk.at(num, k, g, s, r * hd + x);
        let vf = |s: int| wv.at(num, v, g, s, l);
        let mf = masked_at(mask, g * heads + r, i);
        let score = |s: int| scored(num, hd as nat, qf, kf, mf, s);
        let a = |s: int| (num.mul)(num.softmax(1, score, s), vf(s));
        let ex = |s: int| (num.exp)(score(s));
        reveal_with_fuel(meaning::Num::sum, 2);
        assert(num.sum(1, ex) == (num.add)(num.zero, ex(0)));
        assert(num.softmax(1, score, 0) == num.one);
        assert(num.sum(1, a) == (num.add)(num.zero, a(0)));
        assert(context_at(num, q, k, v, mask, wq, wk, wv, heads, hd, g, i, l) == num.sum(1, a));
    }
    meaning::lemma_sum_congruent(num, wo.w.shape[0] as int, f, h);
}

/// What a projection of a `[t, d]` value computes.
proof fn lemma_project_rows<T>(
    num: Num<T>,
    p: ProgModel,
    inputs: Seq<Dense<T>>,
    l: Linear,
    a: Affine<T>,
    x: nat,
    first: nat,
    t: usize,
)
    requires
        inputs.len() == p.inputs,
        a.fits(l),
        x < meaning::values(num, p, inputs).len(),
        meaning::values(num, p, inputs)[x as int].shape == seq![t, l.in_features],
        holds(meaning::values(num, p, inputs), a, first),
    ensures
        ({
            let e = meaning::values(num, p, inputs);
            let q = attention::project(p, l, x, first, seq![t, l.in_features]);
            let y = meaning::computes(num, q, inputs);
            &&& meaning::goes_on(num, p, q, inputs)
            &&& y.shape == seq![t, l.out_features]
            &&& forall|i: int, j: int, u: Dense<T>|
                #![trigger y.at(meaning::ix2(i, j)), a.at(num, u, 0, i, j)]
                0 <= i < t && 0 <= j < l.out_features && (forall|k: int|
                    0 <= k < l.in_features ==> e[x as int].at(meaning::ix2(i, k)) == #[trigger] u.at(
                        meaning::ix3(0, i, k),
                    )) ==> y.at(meaning::ix2(i, j)) == a.at(num, u, 0, i, j)
        }),
{
    reveal(attention::project);
    let e = meaning::values(num, p, inputs);
    let shape = seq![t, l.in_features];
    let q = attention::project(p, l, x, first, shape);
    let y = meaning::computes(num, q, inputs);
    linear::lemma_emit_linear_value(
        num,
        p,
        inputs,
        x,
        first,
        l.bias_id(first),
        shape,
        l.in_features,
        l.out_features,
    );
    assert(shape.drop_last() =~= seq![t]);
    assert(y.shape =~= seq![t, l.out_features]);
    let bv = match l.bias_id(first) {
        Some(c) => Some(e[c as int]),
        None => None,
    };
    assert(bv == a.b);
    assert forall|i: int, j: int, u: Dense<T>|
        #![trigger y.at(meaning::ix2(i, j)), a.at(num, u, 0, i, j)]
        0 <= i < t && 0 <= j < l.out_features && (forall|k: int|
            0 <= k < l.in_features ==> e[x as int].at(meaning::ix2(i, k)) == #[trigger] u.at(
                meaning::ix3(0, i, k),
            )) implies y.at(meaning::ix2(i, j)) == a.at(num, u, 0, i, j) by {
        let lead = meaning::ix1(i);
        assert(meaning::inside(seq![t], lead));
        assert(lead.push(j) =~= meaning::ix2(i, j));
        assert(y.at(lead.push(j)) == meaning::affine_at(num, e[x as int], a.w, bv, lead, j));
        let f = |k: int| (num.mul)(e[x as int].at(lead.push(k)), a.w.at(meaning::ix2(k, j)));
        let h = |k: int| (num.mul)(u.at(meaning::ix3(0, i, k)), a.w.at(meaning::ix2(k, j)));
        assert forall|k: int| 0 <= k < a.w.shape[0] implies #[trigger] f(k) == h(k) by {
            assert(lead.push(k) =~= meaning::ix2(i, k));
            assert(u.at(meaning::ix3(0, i, k)) == e[x as int].at(meaning::ix2(i, k)));
        }
        meaning::lemma_sum_congruent(num, a.w.shape[0] as int, f, h);
    }
}

/// Adding or dropping a batch axis of one keeps the entries.
proof fn lemma_detach<T>(
    num: Num<T>,
    p: ProgModel,
    inputs: Seq<Dense<T>>,
    x: nat,
    t: usize,
    d: usize,
)
    requires
        inputs.len() == p.inputs,
        x < meaning::values(num, p, inputs).len(),
    ensures
        ({
            let a = meaning::values(num, p, inputs)[x as int];
            let up = p.emit(OpModel::Detach(seq![1usize, t, d]), seq![x]);
            let down = p.emit(OpModel::Detach(seq![t, d]), seq![x]);
            let u = meaning::computes(num, up, inputs);
            let w = meaning::computes(num, down, inputs);
            &&& meaning::goes_on(num, p, up, inputs)
            &&& meaning::goes_on(num, p, down, inputs)
            &&& u.shape == seq![1usize, t, d]
            &&& w.shape == seq![t, d]
            &&& a.shape == seq![t, d] ==> forall|i: int, j: int| #[trigger]
                u.at(meaning::ix3(0, i, j)) == a.at(meaning::ix2(i, j))
            &&& a.shape == seq![1usize, t, d] ==> forall|i: int, j: int| #[trigger]
                w.at(meaning::ix2(i, j)) == a.at(meaning::ix3(0, i, j))
        }),
{
    meaning::lemma_step(num, p, inputs, OpModel::Detach(seq![1usize, t, d]), seq![x]);
    meaning::lemma_step(num, p, inputs, OpModel::Detach(seq![t, d]), seq![x]);
    let flat = seq![t, d];
    let full = seq![1usize, t, d];
    assert forall|i: int, j: int|
        #![trigger meaning::ix2(i, j)]
        #![trigger meaning::ix3(0, i, j)]
        meaning::ravel(flat, meaning::ix2(i, j)) == meaning::ravel(
            full,
            meaning::ix3(0, i, j),
        ) by {
        meaning::lemma_ravel_short(flat, meaning::ix2(i, j));
        meaning::lemma_ravel_short(full, meaning::ix3(0, i, j));
        assert(0 * t == 0) by (nonlinear_arith);
    }
}

/// Single-head attention on a `[1, t, d]` input computes what multi-head
/// attention of the input to itself computes with one head of width `d`.
#[verifier::rlimit(60)]
#[verifier::spinoff_prover]
pub proof fn law_single_head_computes<T>(
    a: SingleHeadAttention,
    num: Num<T>,
    x: Dense<T>,
    wq: Affine<T>,
    wk: Affine<T>,
    wv: Affine<T>,
    wo: Affine<T>,
    t: usize,
    i: int,
    j: int,
)
    requires
        a.wf(),
        x.shape == seq![1usize, t, a.q_proj.in_features],
        wq.fits(a.q_proj) && wk.fits(a.k_proj) && wv.fits(a.v_proj) && wo.fits(a.o_proj),
        0 <= i < t,
        0 <= j < a.q_proj.in_features,
    ensures
        ({
            let d = a.q_proj.in_features;
            let y = meaning::computes(
                num,
                attention::emit_single_head(a, t, d),
                seq![x] + wq.params() + wk.params() + wv.params() + wo.params(),
            );
            &&& y.shape == seq![1usize, t, d]
            &&& y.at(meaning::ix3(0, i, j)) == multi_head_at(
                num,
                x,
                x,
                x,
                None,
                wq,
                wk,
                wv,
                wo,
                1,
                d as int,
                0,
                i,
                j,
            )
        }),
{
    let d = a.q_proj.in_features;
    let flat = seq![t, d];
    let full = seq![1usize, t, d];
    let head = seq![x];
    let inputs = head + wq.params() + wk.params() + wv.params() + wo.params();
    lemma_params_stand(head, wq, wk, wv, wo);
    let kf = 1 + a.q_proj.count();
    let vf = kf + a.k_proj.count();
    let of = vf + a.v_proj.count();
    let p0 = ProgModel::start(of + a.o_proj.count());
    assert(meaning::values(num, p0, inputs) == inputs);
    assert(inputs[0] == head[0]);
    let p1 = p0.emit(OpModel::Transpose(0, 0), seq![0]);
    meaning::lemma_step(num, p0, inputs, OpModel::Transpose(0, 0), seq![0]);
    let x1 = meaning::computes(num, p1, inputs);
    assert(x1.shape =~= full);
    assert forall|i: int, k: int| 0 <= i < t && 0 <= k < d implies #[trigger] x1.at(
        meaning::ix3(0, i, k),
    ) == x.at(meaning::ix3(0, i, k)) by {
        let at = meaning::ix3(0, i, k);
        assert(meaning::inside(full, at));
        meaning::lemma_table::<T>(full, at);
        assert(meaning::swapped(at, 0, 0) =~= at);
    }
    let px = p1.emit(OpModel::Detach(flat), seq![p1.result]);
    lemma_detach(num, p1, inputs, p1.result, t, d);
    meaning::lemma_goes_on(num, p0, p1, px, inputs);
    let xf = meaning::computes(num, px, inputs);
    let pq = attention::project(px, a.q_proj, px.result, 1, flat);
    lemma_holds_on(num, p0, px, inputs, wq, 1);
    lemma_project_rows(num, px, inputs, a.q_proj, wq, px.result, 1, t);
    meaning::lemma_goes_on(num, p0, px, pq, inputs);
    let yq = meaning::computes(num, pq, inputs);
    assert(meaning::values(num, pq, inputs)[px.result as int] == xf);
    let pk = attention::project(pq, a.k_proj, px.result, kf, flat);
    lemma_holds_on(num, p0, pq, inputs, wk, kf);
    lemma_project_rows(num, pq, inputs, a.k_proj, wk, px.result, kf, t);
    meaning::lemma_goes_on(num, p0, pq, pk, inputs);
    meaning::lemma_goes_on(num, px, pq, pk, inputs);
    let yk = meaning::computes(num, pk, inputs);
    assert(meaning::values(num, pk, inputs)[px.result as int] == xf);
    let pv = attention::project(pk, a.v_proj, px.result, vf, flat);
    lemma_holds_on(num, p0, pk, inputs, wv, vf);
    lemma_project_rows(num, pk, inputs, a.v_proj, wv, px.result, vf, t);
    meaning::lemma_goes_on(num, p0, pk, pv, inputs);
    meaning::lemma_goes_on(num, pq, pk, pv, inputs);
    let yv = meaning::computes(num, pv, inputs);
    let q3 = pv.emit(OpModel::Detach(full), seq![pq.result]);
    assert(meaning::values(num, pv, inputs)[pq.result as int] == yq);
    lemma_detach(num, pv, inputs, pq.result, t, d);
    let dq = meaning::computes(num, q3, inputs);
    meaning::lemma_goes_on(num, pk, pv, q3, inputs);
    let k3 = q3.emit(OpModel::Detach(full), seq![pk.result]);
    assert(meaning::values(num, q3, inputs)[pk.result as int] == yk);
    lemma_detach(num, q3, inputs, pk.result, t, d);
    let dk = meaning::computes(num, k3, inputs);
    meaning::lemma_goes_on(num, pv, q3, k3, inputs);
    let v3 = k3.emit(OpModel::Detach(full), seq![pv.result]);
    assert(meaning::values(num, k3, inputs)[pv.result as int] == yv);
    lemma_detach(num, k3, inputs, pv.result, t, d);
    let dv = meaning::computes(num, v3, inputs);
    meaning::lemma_goes_on(num, q3, k3, v3, inputs);
    meaning::lemma_goes_on(num, pv, k3, v3, inputs);
    meaning::lemma_goes_on(num, p0, pv, v3, inputs);
    assert(meaning::values(num, v3, inputs)[q3.result as int] == dq);
    assert(meaning::values(num, v3, inputs)[k3.result as int] == dk);
    let pc = attention::core_block(v3, q3.result, k3.result, v3.result, d as nat, None);
    assert(pc == attention::emit_core(v3, q3.result, k3.result, v3.result, d as nat, None)) by {
        reveal(attention::core_block);
    }
    lemma_core_value(num, v3, inputs, q3.result, k3.result, v3.result, None, 1, t, t, d, d);
    let yc = meaning::computes(num, pc, inputs);
    meaning::lemma_goes_on(num, p0, v3, pc, inputs);
    let p2 = pc.emit(OpModel::Detach(flat), seq![pc.result]);
    lemma_detach(num, pc, inputs, pc.result, t, d);
    meaning::lemma_goes_on(num, p0, pc, p2, inputs);
    let yf = meaning::computes(num, p2, inputs);
    let po = attention::project(p2, a.o_proj, p2.result, of, flat);
    lemma_holds_on(num, p0, p2, inputs, wo, of);
    lemma_project_rows(num, p2, inputs, a.o_proj, wo, p2.result, of, t);
    let yo = meaning::computes(num, po, inputs);
    lemma_detach(num, po, inputs, po.result, t, d);
    let r = po.emit(OpModel::Detach(full), seq![po.result]);
    let y = meaning::computes(num, r, inputs);
    assert(y.at(meaning::ix3(0, i, j)) == yo.at(meaning::ix2(i, j)));
    assert(forall|k: int|
        0 <= k < d ==> yf.at(meaning::ix2(i, k)) == #[trigger] yc.at(meaning::ix3(0, i, k)));
    assert(yo.at(meaning::ix2(i, j)) == wo.at(num, yc, 0, i, j));
    let f = |l: int| (num.mul)(yc.at(meaning::ix3(0, i, l)), wo.w.at(meaning::ix2(l, j)));
    let f2 = |l: int|
        (num.mul)(
            context_at(num, x, x, x, None, wq, wk, wv, 1, d as int, 0, i, l),
            wo.w.at(meaning::ix2(l, j)),
        );
    assert forall|i: int, k: int| 0 <= i < t && 0 <= k < d implies #[trigger] xf.at(
        meaning::ix2(i, k),
    ) == x.at(meaning::ix3(0, i, k)) by {
        assert(x1.at(meaning::ix3(0, i, k)) == x.at(meaning::ix3(0, i, k)));
    }
    assert forall|l: int| 0 <= l < d implies #[trigger] f(l) == f2(l) by {
        let none: Option<Dense<T>> = None;
        assert(l / (d as int) == 0) by (nonlinear_arith)
            requires
                0 <= l < d,
        ;
        let q1 = |k: int| dq.at(meaning::ix3(0, i, k));
        let k1 = |s: int, k: int| dk.at(meaning::ix3(0, s, k));
        let v1 = |s: int| dv.at(meaning::ix3(0, s, l));
        let m1 = masked_at(none, 0, i);
        let q2 = |k: int| wq.at(num, x, 0, i, (l / (d as int)) * (d as int) + k);
        let k2 = |s: int, k: int| wk.at(num, x, 0, s, (l / (d as int)) * (d as int) + k);
        let v2 = |s: int| wv.at(num, x, 0, s, l);
        let m2 = masked_at(none, 0 * 1 + l / (d as int), i);
        assert(0 * (d as int) == 0) by (nonlinear_arith);
        assert forall|k: int| 0 <= k < d implies #[trigger] q1(k) == q2(k) by {
            assert(dq.at(meaning::ix3(0, i, k)) == yq.at(meaning::ix2(i, k)));
            assert(wq.at(num, x, 0, i, k) == q2(k));
        }
        assert forall|s: int, k: int| 0 <= s < t && 0 <= k < d implies #[trigger] k1(s, k) == k2(
            s,
            k,
        ) by {
            assert(dk.at(meaning::ix3(0, s, k)) == yk.at(meaning::ix2(s, k)));
            assert(wk.at(num, x, 0, s, k) == k2(s, k));
        }
        assert forall|s: int| 0 <= s < t implies #[trigger] v1(s) == v2(s) by {
            assert(dv.at(meaning::ix3(0, s, l)) == yv.at(meaning::ix2(s, l)));
            assert(wv.at(num, x, 0, s, l) == v2(s));
        }
        lemma_attended_congruent(num, d as nat, t as int, q1, k1, v1, m1, q2, k2, v2, m2);
        assert(yc.at(meaning::ix3(0, i, l)) == attended(num, d as nat, t as int, q1, k1, v1, m1));
    }
    meaning::lemma_sum_congruent(num, d as int, f, f2);
}

/// Multi-head attention depends on the entries of its inputs alone.
pub proof fn lemma_multi_head_congruent<T>(
    num: Num<T>,
    q: Dense<T>,
    k: Dense<T>,
    v: Dense<T>,
    q2: Dense<T>,
    k2: Dense<T>,
    v2: Dense<T>,
    mask: Option<Dense<T>>,
    wq: Affine<T>,
    wk: Affine<T>,
    wv: Affine<T>,
    wo: Affine<T>,
    heads: int,
    hd: int,
    g: int,
    i: int,
    j: int,
)
    requires
        k.shape[1] == k2.shape[1],
        forall|l: int| #![trigger q.at(meaning::ix3(g, i, l))]
            0 <= l < wq.w.shape[0] ==> q.at(meaning::ix3(g, i, l)) == q2.at(meaning::ix3(g, i, l)),
        forall|s: int, l: int| #![trigger k.at(meaning::ix3(g, s, l))]
            0 <= s < k.shape[1] && 0 <= l < wk.w.shape[0] ==> k.at(meaning::ix3(g, s, l)) == k2.at(
                meaning::ix3(g, s, l),
            ),
        forall|s: int, l: int| #![trigger v.at(meaning::ix3(g, s, l))]
            0 <= s < k.shape[1] && 0 <= l < wv.w.shape[0] ==> v.at(meaning::ix3(g, s, l)) == v2.at(
                meaning::ix3(g, s, l),
            ),
    ensures
        multi_head_at(num, q, k, v, mask, wq, wk, wv, wo, heads, hd, g, i, j) == multi_head_at(
            num,
            q2,
            k2,
            v2,
            mask,
            wq,
            wk,
            wv,
            wo,
            heads,
            hd,
            g,
            i,
            j,
        ),
{
    let f = |l: int|
        (num.mul)(
            context_at(num, q, k, v, mask, wq, wk, wv, heads, hd, g, i, l),
            wo.w.at(meaning::ix2(l, j)),
        );
    let f2 = |l: int|
        (num.mul)(
            context_at(num, q2, k2, v2, mask, wq, wk, wv, heads, hd, g, i, l),
            wo.w.at(meaning::ix2(l, j)),
        );
    assert forall|l: int| 0 <= l < wo.w.shape[0] implies #[trigger] f(l) == f2(l) by {
        let r = l / hd;
        let qa = |x: int| wq.at(num, q, g, i, r * hd + x);
        let ka = |s: int, x: int| wk.at(num, k, g, s, r * hd + x);
        let va = |s: int| wv.at(num, v, g, s, l);
        let qb = |x: int| wq.at(num, q2, g, i, r * hd + x);
        let kb = |s: int, x: int| wk.at(num, k2, g, s, r * hd + x);
        let vb = |s: int| wv.at(num, v2, g, s, l);
        let m = masked_at(mask, g * heads + r, i);
        assert forall|x: int| #[trigger] qa(x) == qb(x) by {
            lemma_affine_congruent(num, wq, q, q2, g, i, r * hd + x);
        }
        assert forall|s: int, x: int| 0 <= s < k.shape[1] implies #[trigger] ka(s, x) == kb(
            s,
            x,
        ) by {
            lemma_affine_congruent(num, wk, k, k2, g, s, r * hd + x);
        }
        assert forall|s: int| 0 <= s < k.shape[1] implies #[trigger] va(s) == vb(s) by {
            lemma_affine_congruent(num, wv, v, v2, g, s, l);
        }
        lemma_attended_congruent(
            num,
            hd as nat,
            k.shape[1] as int,
            qa,
            ka,
            va,
            m,
            qb,
            kb,
            vb,
            m,
        );
    }
    meaning::lemma_sum_congruent(num, wo.w.shape[0] as int, f, f2);
}

proof fn lemma_affine_congruent<T>(
    num: Num<T>,
    a: Affine<T>,
    x: Dense<T>,
    x2: Dense<T>,
    g: int,
    i: int,
    j: int,
)
    requires
        forall|l: int| #![trigger x.at(meaning::ix3(g, i, l))]
            0 <= l < a.w.shape[0] ==> x.at(meaning::ix3(g, i, l)) == x2.at(meaning::ix3(g, i, l)),
    ensures
        a.at(num, x, g, i, j) == a.at(num, x2, g, i, j),
{
    let f = |l: int| (num.mul)(x.at(meaning::ix3(g, i, l)), a.w.at(meaning::ix2(l, j)));
    let h = |l: int| (num.mul)(x2.at(meaning::ix3(g, i, l)), a.w.at(meaning::ix2(l, j)));
    assert forall|l: int| 0 <= l < a.w.shape[0] implies #[trigger] f(l) == h(l) by {
        assert(x.at(meaning::ix3(g, i, l)) == x2.at(meaning::ix3(g, i, l)));
    }
    meaning::lemma_sum_congruent(num, a.w.shape[0] as int, f, h);
}

} // verus!
