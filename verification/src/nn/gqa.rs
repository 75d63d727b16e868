//! Grouped-query attention.
//!
//! The query has `n_heads` heads while keys and values share `n_kv_heads`,
//! with `n_heads` a multiple of `n_kv_heads`. Query head `h` reads key/value
//! head `h / (n_heads / n_kv_heads)`.
//!
//! The arithmetic of a single attention row, and that of the tiled prefill
//! kernel, come in as closures; which elements they are given, and where
//! their results go, is decided here.
use crate::blocks;
use crate::nn::meaning::Num;
use crate::nn::softmax_row;
use crate::nn::softmax_row::SoftmaxKernel;
use crate::text;
use crate::text::Text;
use vstd::prelude::*;
use vstd::slice::slice_subrange;

verus! {

/// Errors raised by grouped-query attention.
#[derive(Debug, Clone, PartialEq, Eq)]
pub enum GQAError {
    /// `n_heads` is not divisible by `n_kv_heads`.
    HeadCountMismatch {
        /// Query head count.
        n_heads: usize,
        /// Key/value head count.
        n_kv_heads: usize,
    },
    /// A buffer does not have the length of its four axes.
    WrongInputLen {
        /// Which buffer.
        which: &'static str,
        /// Expected.
        expected: usize,
        /// Actual.
        got: usize,
    },
}

impl GQAError {
    /// The text of the error.
    pub open spec fn text(self) -> Seq<char> {
        match self {
            GQAError::HeadCountMismatch { n_heads, n_kv_heads } => "gqa: n_heads "@ + text::decimal(
                n_heads as nat,
            ) + " not divisible by n_kv_heads "@ + text::decimal(n_kv_heads as nat),
            GQAError::WrongInputLen { which, expected, got } => "gqa: "@ + which@ + " expected "@
                + text::decimal(expected as nat) + " f32, got "@ + text::decimal(got as nat),
        }
    }

    /// Renders the error for a reader.
    pub fn message(&self) -> (r: String)
        ensures
            r@ == self.text(),
    {
        match self {
            GQAError::HeadCountMismatch { n_heads, n_kv_heads } => Text::start("gqa: n_heads ").num(
                *n_heads,
            ).lit(" not divisible by n_kv_heads ").num(*n_kv_heads).finish(),
            GQAError::WrongInputLen { which, expected, got } => Text::start("gqa: ").lit(which).lit(
                " expected ",
            ).num(*expected).lit(" f32, got ").num(*got).finish(),
        }
    }
}

/// The axes of a grouped-query attention call.
#[derive(Debug, Clone, Copy, PartialEq, Eq, Structural)]
pub struct GqaShape {
    pub batch: usize,
    pub n_heads: usize,
    pub n_kv_heads: usize,
    pub seq_q: usize,
    pub seq_kv: usize,
    pub head_dim: usize,
}

/// The axes of plain attention, in which queries, keys and values agree.
#[derive(Debug, Clone, Copy, PartialEq, Eq, Structural)]
pub struct AttentionShape {
    pub batch: usize,
    pub n_heads: usize,
    pub seq_len: usize,
    pub head_dim: usize,
}

impl GqaShape {
    /// The axes of the prefill call: all query heads, each with its own copy
    /// of the keys and values of its group.
    pub open spec fn prefill(self) -> AttentionShape {
        AttentionShape {
            batch: self.batch,
            n_heads: self.n_heads,
            seq_len: self.seq_q,
            head_dim: self.head_dim,
        }
    }

    /// The query heads fall into `n_kv_heads` groups of equal size.
    pub open spec fn heads_ok(self) -> bool {
        self.n_kv_heads != 0 && self.n_heads % self.n_kv_heads == 0
    }

    /// Number of query heads that share a key/value head.
    pub open spec fn group_size(self) -> int {
        self.n_heads as int / self.n_kv_heads as int
    }

    /// Length of the query and of the output.
    pub open spec fn q_len(self) -> int {
        self.batch * self.n_heads * self.seq_q * self.head_dim
    }

    /// Length of the keys and of the values.
    pub open spec fn kv_len(self) -> int {
        self.batch * self.n_kv_heads * self.seq_kv * self.head_dim
    }

    /// Elements that one key/value head contributes.
    pub open spec fn kv_head_len(self) -> int {
        self.seq_kv * self.head_dim
    }

    /// No product of the axes that has to be formed leaves the machine range.
    pub open spec fn fits(self) -> bool {
        self.heads_ok() ==> {
            &&& self.batch * self.n_heads <= usize::MAX
            &&& self.batch * self.n_heads * self.seq_q <= usize::MAX
            &&& self.q_len() <= usize::MAX
            &&& self.batch * self.n_kv_heads <= usize::MAX
            &&& self.batch * self.n_kv_heads * self.seq_kv <= usize::MAX
            &&& self.kv_len() <= usize::MAX
        }
    }

    /// The error for buffers of the given lengths, or `None` where they fit
    /// the axes. The query is looked at first, then the keys, the values and
    /// the output.
    pub open spec fn error(self, q: nat, k: nat, v: nat, out: nat) -> Option<GQAError> {
        if !self.heads_ok() {
            Some(
                GQAError::HeadCountMismatch { n_heads: self.n_heads, n_kv_heads: self.n_kv_heads },
            )
        } else if q != self.q_len() {
            Some(wrong_len("q", self.q_len(), q))
        } else if k != self.kv_len() {
            Some(wrong_len("k", self.kv_len(), k))
        } else if v != self.kv_len() {
            Some(wrong_len("v", self.kv_len(), v))
        } else if out != self.q_len() {
            Some(wrong_len("out", self.q_len(), out))
        } else {
            None
        }
    }

    /// Index of the key/value block that query block `bh` reads, where block
    /// `b * n_heads + h` belongs to head `h` of batch entry `b`.
    pub open spec fn kv_block(self, bh: int) -> int {
        (bh / self.n_heads as int) * self.n_kv_heads + (bh % self.n_heads as int)
            / self.group_size()
    }

    /// Offset of row `p` of query block `bh`.
    pub open spec fn q_row(self, bh: int, p: int) -> int {
        (bh * self.seq_q + p) * self.head_dim
    }
}

/// A length error.
pub open spec fn wrong_len(which: &'static str, expected: int, got: nat) -> GQAError {
    GQAError::WrongInputLen { which, expected: expected as usize, got: got as usize }
}

/// `y` is a result of the row kernel `f` on the query row `q`, the keys `k`
/// and the values `v`.
pub open spec fn attends<T, F: Fn(&[T], &[T], &[T]) -> Vec<T>>(
    f: F,
    q: Seq<T>,
    k: Seq<T>,
    v: Seq<T>,
    y: Seq<T>,
) -> bool {
    exists|a: &[T], b: &[T], c: &[T], r: Vec<T>|
        a@ == q && b@ == k && c@ == v && r@ == y && #[trigger] call_ensures(f, (a, b, c), r)
}

/// The prefill kernel `f`, given the axes `a` and buffers `q`, `k` and `v` of
/// those axes, may answer `y` (`None` where it refuses the call).
pub open spec fn flashes<T, F: Fn(AttentionShape, &[T], &[T], &[T]) -> Option<Vec<T>>>(
    f: F,
    a: AttentionShape,
    q: Seq<T>,
    k: Seq<T>,
    v: Seq<T>,
    y: Option<Seq<T>>,
) -> bool {
    exists|qs: &[T], ks: &[T], vs: &[T], r: Option<Vec<T>>|
        qs@ == q && ks@ == k && vs@ == v && (match (r, y) {
            (Some(rv), Some(ys)) => rv@ == ys,
            (None, None) => true,
            _ => false,
        }) && #[trigger] call_ensures(f, (a, qs, ks, vs), r)
}

/// The row kernel takes any row, key block and value block of these axes and
/// answers a row of `head_dim` elements.
pub open spec fn row_kernel<T, F: Fn(&[T], &[T], &[T]) -> Vec<T>>(f: F, s: GqaShape) -> bool {
    &&& forall|a: &[T], b: &[T], c: &[T]|
        a@.len() == s.head_dim && b@.len() == s.kv_head_len() && c@.len() == s.kv_head_len()
            ==> #[trigger] call_requires(f, (a, b, c))
    &&& forall|a: &[T], b: &[T], c: &[T], r: Vec<T>| #[trigger]
        call_ensures(f, (a, b, c), r) && a@.len() == s.head_dim ==> r@.len() == s.head_dim
}

/// The prefill kernel takes any three buffers of `q_len` elements and, where
/// it answers, answers as many.
pub open spec fn flash_kernel<T, F: Fn(AttentionShape, &[T], &[T], &[T]) -> Option<Vec<T>>>(
    f: F,
    s: GqaShape,
) -> bool {
    &&& forall|a: &[T], b: &[T], c: &[T]|
        a@.len() == s.q_len() && b@.len() == s.q_len() && c@.len() == s.q_len()
            ==> #[trigger] call_requires(f, (s.prefill(), a, b, c))
    &&& forall|a: &[T], b: &[T], c: &[T], r: Vec<T>| #[trigger]
        call_ensures(f, (s.prefill(), a, b, c), Some(r)) && a@.len() == s.q_len() ==> r@.len()
            == s.q_len()
}

/// Key or value blocks repeated so that each of the `n_heads` query heads has
/// its own copy: block `b * n_heads + h` is block
/// `b * n_kv_heads + h / group_size` of `src`.
pub open spec fn replicated<T>(src: Seq<T>, s: GqaShape) -> Seq<T> {
    let w = s.kv_head_len();
    Seq::new(
        (s.batch * s.n_heads * w) as nat,
        |i: int| src[blocks::at(s.kv_block(i / w), w, i % w)],
    )
}

/// Row `p` of query block `bh` in `out` is the row kernel's answer on the
/// matching query row and the key/value block of its group.
pub open spec fn row_done<T, F: Fn(&[T], &[T], &[T]) -> Vec<T>>(
    f: F,
    q: Seq<T>,
    k: Seq<T>,
    v: Seq<T>,
    out: Seq<T>,
    s: GqaShape,
    bh: int,
    p: int,
) -> bool {
    let o = s.q_row(bh, p);
    let kv = s.kv_block(bh) * s.kv_head_len();
    attends(
        f,
        q.subrange(o, o + s.head_dim),
        k.subrange(kv, kv + s.kv_head_len()),
        v.subrange(kv, kv + s.kv_head_len()),
        out.subrange(o, o + s.head_dim),
    )
}

/// The key/value block of every query block exists.
proof fn lemma_kv_block(s: GqaShape, bh: int)
    requires
        s.heads_ok(),
        0 <= bh < s.batch * s.n_heads,
    ensures
        s.n_heads > 0,
        s.group_size() > 0,
        0 <= bh / (s.n_heads as int) < s.batch,
        0 <= bh % (s.n_heads as int) < s.n_heads,
        0 <= (bh % s.n_heads as int) / s.group_size() < s.n_kv_heads,
        0 <= s.kv_block(bh) < s.batch * s.n_kv_heads,
{
    let nh = s.n_heads as int;
    let nkv = s.n_kv_heads as int;
    let g = s.group_size();
    assert(nh > 0) by (nonlinear_arith)
        requires
            0 < s.batch * nh,
            nh >= 0,
    ;
    assert(nh == g * nkv) by (nonlinear_arith)
        requires
            nkv > 0,
            nh % nkv == 0,
            g == nh / nkv,
    ;
    assert(g > 0) by (nonlinear_arith)
        requires
            nh == g * nkv,
            nh > 0,
            nkv > 0,
    ;
    blocks::lemma_at_surjective(bh, nh, s.batch as int);
    let h = bh % nh;
    assert(0 <= h / g < nkv) by (nonlinear_arith)
        requires
            0 <= h < g * nkv,
            g > 0,
    ;
    blocks::lemma_at_bounds(bh / nh, nkv, h / g, s.batch as int);
}

/// Product facts about a call whose buffers fit its axes.
proof fn lemma_products(s: GqaShape)
    ensures
        s.q_len() == s.batch * s.n_heads * (s.seq_q * s.head_dim),
        s.kv_len() == s.batch * s.n_kv_heads * s.kv_head_len(),
        0 <= s.batch * s.n_heads,
        0 <= s.batch * s.n_kv_heads,
        0 <= s.seq_q * s.head_dim,
        0 <= s.kv_head_len(),
{
    let bh = s.batch * s.n_heads;
    let bk = s.batch * s.n_kv_heads;
    assert(bh * s.seq_q * s.head_dim == bh * (s.seq_q * s.head_dim)) by (nonlinear_arith);
    assert(bk * s.seq_kv * s.head_dim == bk * (s.seq_kv * s.head_dim)) by (nonlinear_arith);
    assert(0 <= s.batch * s.n_heads) by (nonlinear_arith);
    assert(0 <= s.batch * s.n_kv_heads) by (nonlinear_arith);
    assert(0 <= s.seq_q * s.head_dim) by (nonlinear_arith);
    assert(0 <= s.seq_kv * s.head_dim) by (nonlinear_arith);
}

/// Checks the axes against the buffer lengths.
pub fn check(s: GqaShape, q: usize, k: usize, v: usize, out: usize) -> (r: Result<(), GQAError>)
    requires
        s.fits(),
    ensures
        match r {
            Ok(()) => s.error(q as nat, k as nat, v as nat, out as nat) is None,
            Err(e) => s.error(q as nat, k as nat, v as nat, out as nat) == Some(e),
        },
{
    if s.n_kv_heads == 0 || s.n_heads % s.n_kv_heads != 0 {
        return Err(
            GQAError::HeadCountMismatch { n_heads: s.n_heads, n_kv_heads: s.n_kv_heads },
        );
    }
    let q_len: usize = s.batch * s.n_heads * s.seq_q * s.head_dim;
    let kv_len: usize = s.batch * s.n_kv_heads * s.seq_kv * s.head_dim;
    if q != q_len {
        return Err(GQAError::WrongInputLen { which: "q", expected: q_len, got: q });
    }
    if k != kv_len {
        return Err(GQAError::WrongInputLen { which: "k", expected: kv_len, got: k });
    }
    if v != kv_len {
        return Err(GQAError::WrongInputLen { which: "v", expected: kv_len, got: v });
    }
    if out != q_len {
        return Err(GQAError::WrongInputLen { which: "out", expected: q_len, got: out });
    }
    Ok(())
}

/// Repeats the key or value heads of `src` so that every query head has its
/// own copy.
pub fn replicate_kv<T: Copy>(src: &[T], s: GqaShape) -> (out: Vec<T>)
    requires
        s.heads_ok(),
        s.fits(),
        s.kv_head_len() <= usize::MAX,
        s.batch * s.n_heads * s.kv_head_len() <= usize::MAX,
        src@.len() == s.kv_len(),
    ensures
        out@ == replicated(src@, s),
{
    let group: usize = s.n_heads / s.n_kv_heads;
    let size: usize = s.seq_kv * s.head_dim;
    let total: usize = s.batch * s.n_heads;
    let mut order: Vec<usize> = Vec::with_capacity(total);
    let mut bh: usize = 0;
    while bh < total
        invariant
            bh <= total,
            total == s.batch * s.n_heads,
            group == s.group_size(),
            s.heads_ok(),
            s.fits(),
            order@.len() == bh,
            forall|j: int|
                0 <= j < bh ==> #[trigger] order@[j] == s.kv_block(j) && order@[j] < s.batch
                    * s.n_kv_heads,
        decreases total - bh,
    {
        proof {
            lemma_kv_block(s, bh as int);
        }
        let b: usize = bh / s.n_heads;
        let h: usize = bh % s.n_heads;
        proof {
            assert(b * s.n_kv_heads <= s.kv_block(bh as int));
        }
        order.push(b * s.n_kv_heads + h / group);
        bh += 1;
    }
    proof {
        lemma_products(s);
    }
    let out = blocks::gather_blocks(src, size, &order, s.batch * s.n_kv_heads);
    proof {
        let w = s.kv_head_len();
        assert forall|i: int| 0 <= i < out@.len() implies #[trigger] out@[i] == replicated(src@, s)[i] by {
            assert(w > 0) by (nonlinear_arith)
                requires
                    0 < order@.len() * w,
                    w >= 0,
            ;
            blocks::lemma_at_surjective(i, w, order@.len() as int);
            assert(out@[blocks::at(i / w, w, i % w)] == src@[blocks::at(
                order@[i / w] as int,
                w,
                i % w,
            )]);
        }
        assert(out@ =~= replicated(src@, s));
    }
    out
}

/// Overwrites `out[off..off + row.len()]` with `row`.
fn write_at<T: Copy>(out: &mut [T], off: usize, row: &[T])
    requires
        off + row@.len() <= old(out)@.len(),
    ensures
        final(out)@.len() == old(out)@.len(),
        forall|i: int|
            0 <= i < old(out)@.len() ==> #[trigger] final(out)@[i] == (if off <= i < off + row@.len() {
                row@[i - off]
            } else {
                old(out)@[i]
            }),
{
    let out_len: usize = out.len();
    let n: usize = row.len();
    let mut t: usize = 0;
    while t < n
        invariant
            t <= n,
            n == row@.len(),
            off + n <= out_len == out@.len(),
            out@.len() == old(out)@.len(),
            forall|i: int|
                0 <= i < out@.len() ==> #[trigger] out@[i] == (if off <= i < off + t {
                    row@[i - off]
                } else {
                    old(out)@[i]
                }),
        decreases n - t,
    {
        out[off + t] = row[t];
        t += 1;
    }
}

/// Where the rows of a query block lie.
proof fn lemma_q_rows(s: GqaShape, bh: int, p: int)
    requires
        0 <= bh < s.batch * s.n_heads,
        0 <= p < s.seq_q,
    ensures
        s.q_row(bh, p) == bh * (s.seq_q * s.head_dim) + p * s.head_dim,
        0 <= p * s.head_dim,
        0 <= bh * (s.seq_q * s.head_dim),
        p * s.head_dim + s.head_dim <= s.seq_q * s.head_dim,
        bh * (s.seq_q * s.head_dim) + s.seq_q * s.head_dim <= s.q_len(),
{
    lemma_products(s);
    let w = s.seq_q * s.head_dim;
    assert((bh * s.seq_q + p) * s.head_dim == bh * (s.seq_q * s.head_dim) + p * s.head_dim)
        by (nonlinear_arith);
    assert(0 <= p * s.head_dim) by (nonlinear_arith)
        requires
            0 <= p,
    ;
    assert(p * s.head_dim + s.head_dim <= s.seq_q * s.head_dim) by (nonlinear_arith)
        requires
            p + 1 <= s.seq_q,
    ;
    assert(0 <= bh * w) by (nonlinear_arith)
        requires
            0 <= bh,
            0 <= w,
    ;
    let n = s.batch * s.n_heads;
    assert(bh * w + w <= n * w) by (nonlinear_arith)
        requires
            bh + 1 <= n,
            0 <= w,
    ;
}

/// The attention rows of one query block: head `bh % n_heads` of batch entry
/// `bh / n_heads`. Blocks are independent of each other.
pub fn decode_block<T: Copy, F: Fn(&[T], &[T], &[T]) -> Vec<T>>(
    q: &[T],
    k: &[T],
    v: &[T],
    s: GqaShape,
    bh: usize,
    attend: &F,
) -> (block: Vec<T>)
    requires
        s.fits(),
        s.error(q@.len(), k@.len(), v@.len(), q@.len()) is None,
        bh < s.batch * s.n_heads,
        row_kernel(*attend, s),
    ensures
        block@.len() == s.seq_q * s.head_dim,
        forall|p: int|
            0 <= p < s.seq_q ==> #[trigger] attends(
                *attend,
                q@.subrange(s.q_row(bh as int, p), s.q_row(bh as int, p) + s.head_dim),
                k@.subrange(
                    s.kv_block(bh as int) * s.kv_head_len(),
                    s.kv_block(bh as int) * s.kv_head_len() + s.kv_head_len(),
                ),
                v@.subrange(
                    s.kv_block(bh as int) * s.kv_head_len(),
                    s.kv_block(bh as int) * s.kv_head_len() + s.kv_head_len(),
                ),
                block@.subrange(p * s.head_dim, p * s.head_dim + s.head_dim),
            ),
{
    let q_total: usize = q.len();
    let k_total: usize = k.len();
    let ghost w = s.kv_head_len();
    let ghost kvb = s.kv_block(bh as int);
    proof {
        lemma_products(s);
        lemma_kv_block(s, bh as int);
        let bk = s.batch * s.n_kv_heads;
        assert(kvb * w + w <= bk * w) by (nonlinear_arith)
            requires
                kvb + 1 <= bk,
                0 <= w,
        ;
        assert(0 <= kvb * w) by (nonlinear_arith)
            requires
                0 <= kvb,
                0 <= w,
        ;
    }
    let group: usize = s.n_heads / s.n_kv_heads;
    let b: usize = bh / s.n_heads;
    let h: usize = bh % s.n_heads;
    assert(b * s.n_kv_heads <= kvb);
    let kv_size: usize = s.seq_kv * s.head_dim;
    let kv_off: usize = (b * s.n_kv_heads + h / group) * kv_size;
    let k_block = slice_subrange(k, kv_off, kv_off + kv_size);
    let v_block = slice_subrange(v, kv_off, kv_off + kv_size);
    let mut block: Vec<T> = Vec::new();
    let mut p: usize = 0;
    while p < s.seq_q
        invariant
            p <= s.seq_q,
            s.fits(),
            s.error(q@.len(), k@.len(), v@.len(), q@.len()) is None,
            q_total == q@.len(),
            bh < s.batch * s.n_heads,
            row_kernel(*attend, s),
            k_block@.len() == s.kv_head_len(),
            v_block@.len() == s.kv_head_len(),
            block@.len() == p * s.head_dim,
            forall|p1: int|
                0 <= p1 < p ==> #[trigger] attends(
                    *attend,
                    q@.subrange(s.q_row(bh as int, p1), s.q_row(bh as int, p1) + s.head_dim),
                    k_block@,
                    v_block@,
                    block@.subrange(p1 * s.head_dim, p1 * s.head_dim + s.head_dim),
                ),
        decreases s.seq_q - p,
    {
        let ghost before = block@;
        let ghost hd = s.head_dim as int;
        proof {
            lemma_q_rows(s, bh as int, p as int);
            assert(bh * s.seq_q + p <= s.batch * s.n_heads * s.seq_q) by (nonlinear_arith)
                requires
                    bh + 1 <= s.batch * s.n_heads,
                    p <= s.seq_q,
            ;
            assert(bh * s.seq_q >= 0) by (nonlinear_arith);
        }
        let off: usize = (bh * s.seq_q + p) * s.head_dim;
        let q_row = slice_subrange(q, off, off + s.head_dim);
        let row = attend(q_row, k_block, v_block);
        let mut t: usize = 0;
        while t < s.head_dim
            invariant
                t <= s.head_dim,
                row@.len() == s.head_dim,
                block@.len() == before.len() + t,
                block@ == before + row@.take(t as int),
            decreases s.head_dim - t,
        {
            block.push(row[t]);
            assert(block@ =~= before + row@.take(t + 1));
            t += 1;
        }
        proof {
            assert(row@.take(hd) =~= row@);
            assert((p + 1) * hd == p * hd + hd) by (nonlinear_arith);
            assert forall|p1: int| 0 <= p1 < p + 1 implies #[trigger] attends(
                *attend,
                q@.subrange(s.q_row(bh as int, p1), s.q_row(bh as int, p1) + s.head_dim),
                k_block@,
                v_block@,
                block@.subrange(p1 * s.head_dim, p1 * s.head_dim + s.head_dim),
            ) by {
                if p1 < p {
                    assert(p1 * hd + hd <= p * hd && 0 <= p1 * hd) by (nonlinear_arith)
                        requires
                            0 <= p1,
                            p1 + 1 <= p,
                            0 <= hd,
                    ;
                    assert(block@.subrange(p1 * hd, p1 * hd + hd) =~= before.subrange(
                        p1 * hd,
                        p1 * hd + hd,
                    ));
                } else {
                    assert(block@.subrange(p1 * hd, p1 * hd + hd) =~= row@);
                    assert(call_ensures(*attend, (q_row, k_block, v_block), row));
                }
            }
        }
        p += 1;
    }
    block
}

/// Grouped-query attention without a mask, with any kernel for a row.
///
/// `q` and `out` are row-major `[batch, n_heads, seq_q, head_dim]`, `k` and
/// `v` are `[batch, n_kv_heads, seq_kv, head_dim]`. Where the sequence lengths
/// agree the keys and values are replicated per query head and handed to
/// `flash` in one call; otherwise each query row goes to `attend` with the
/// key/value block of its group. On success `out` is overwritten in full.
pub fn gqa_by_rows<
    T: Copy,
    P: Fn(AttentionShape, &[T], &[T], &[T]) -> Option<Vec<T>>,
    F: Fn(&[T], &[T], &[T]) -> Vec<T>,
>(q: &[T], k: &[T], v: &[T], out: &mut [T], s: GqaShape, flash: &P, attend: &F) -> (r: Result<
    (),
    GQAError,
>)
    requires
        s.fits(),
        s.error(q@.len(), k@.len(), v@.len(), old(out)@.len()) is None ==> {
            &&& s.kv_head_len() <= usize::MAX
            &&& s.seq_q == s.seq_kv ==> flash_kernel(*flash, s)
            &&& s.seq_q != s.seq_kv ==> row_kernel(*attend, s) && s.seq_q * s.head_dim > 0
            &&& s.seq_q * s.head_dim <= usize::MAX
        },
    ensures
        final(out)@.len() == old(out)@.len(),
        match r {
            Ok(()) => {
                &&& s.error(q@.len(), k@.len(), v@.len(), old(out)@.len()) is None
                &&& s.seq_q == s.seq_kv ==> flashes(
                    *flash,
                    s.prefill(),
                    q@,
                    replicated(k@, s),
                    replicated(v@, s),
                    Some(final(out)@),
                )
                &&& s.seq_q != s.seq_kv ==> forall|bh: int, p: int|
                    0 <= bh < s.batch * s.n_heads && 0 <= p < s.seq_q ==> #[trigger] row_done(
                        *attend,
                        q@,
                        k@,
                        v@,
                        final(out)@,
                        s,
                        bh,
                        p,
                    )
            },
            Err(e) => {
                &&& final(out)@ == old(out)@
                &&& match s.error(q@.len(), k@.len(), v@.len(), old(out)@.len()) {
                    Some(expected) => e == expected,
                    None => {
                        &&& s.seq_q == s.seq_kv
                        &&& flashes(*flash, s.prefill(), q@, replicated(k@, s), replicated(v@, s), None)
                        &&& e == wrong_len("flash_forward", 0, 0)
                    },
                }
            },
        },
{
    let n_out: usize = out.len();
    match check(s, q.len(), k.len(), v.len(), n_out) {
        Err(e) => {
            return Err(e);
        },
        Ok(()) => {},
    }
    proof {
        lemma_products(s);
    }
    if s.seq_q == s.seq_kv {
        let k_rep = replicate_kv(k, s);
        let v_rep = replicate_kv(v, s);
        let axes = AttentionShape {
            batch: s.batch,
            n_heads: s.n_heads,
            seq_len: s.seq_q,
            head_dim: s.head_dim,
        };
        assert(axes == s.prefill());
        let answer = flash(axes, q, k_rep.as_slice(), v_rep.as_slice());
        match answer {
            None => {
                return Err(GQAError::WrongInputLen { which: "flash_forward", expected: 0, got: 0 });
            },
            Some(y) => {
                write_at(out, 0, y.as_slice());
                assert(out@ =~= y@);
                return Ok(());
            },
        }
    }
    let w: usize = s.seq_q * s.head_dim;
    let total: usize = s.batch * s.n_heads;
    let mut bh: usize = 0;
    while bh < total
        invariant
            bh <= total,
            total == s.batch * s.n_heads,
            w == s.seq_q * s.head_dim,
            n_out == out@.len() == old(out)@.len(),
            s.fits(),
            s.error(q@.len(), k@.len(), v@.len(), out@.len()) is None,
            row_kernel(*attend, s),
            forall|b1: int, p: int|
                0 <= b1 < bh && 0 <= p < s.seq_q ==> #[trigger] row_done(
                    *attend,
                    q@,
                    k@,
                    v@,
                    out@,
                    s,
                    b1,
                    p,
                ),
        decreases total - bh,
    {
        let block = decode_block(q, k, v, s, bh, attend);
        let ghost before = out@;
        proof {
            lemma_products(s);
            assert(bh * w + w <= total * w) by (nonlinear_arith)
                requires
                    bh + 1 <= total,
            ;
            assert(bh * w >= 0) by (nonlinear_arith);
        }
        write_at(out, bh * w, block.as_slice());
        proof {
            let hd = s.head_dim as int;
            assert forall|b1: int, p: int|
                0 <= b1 < bh + 1 && 0 <= p < s.seq_q implies #[trigger] row_done(
                *attend,
                q@,
                k@,
                v@,
                out@,
                s,
                b1,
                p,
            ) by {
                lemma_q_rows(s, b1, p);
                let o = s.q_row(b1, p);
                if b1 < bh {
                    assert(b1 * w + w <= bh * w) by (nonlinear_arith)
                        requires
                            b1 + 1 <= bh,
                    ;
                    assert(row_done(*attend, q@, k@, v@, before, s, b1, p));
                    assert(out@.subrange(o, o + hd) =~= before.subrange(o, o + hd));
                } else {
                    assert(out@.subrange(o, o + hd) =~= block@.subrange(p * hd, p * hd + hd));
                    let kv = s.kv_block(bh as int) * s.kv_head_len();
                    assert(attends(
                        *attend,
                        q@.subrange(s.q_row(bh as int, p), s.q_row(bh as int, p) + s.head_dim),
                        k@.subrange(kv, kv + s.kv_head_len()),
                        v@.subrange(kv, kv + s.kv_head_len()),
                        block@.subrange(p * s.head_dim, p * s.head_dim + s.head_dim),
                    ));
                }
            }
        }
        bh += 1;
    }
    Ok(())
}

/// Row `p` of query block `bh` in `out` is the softmax attention of the
/// matching query row to the key/value block of its group.
pub open spec fn row_attended<
    T,
    D: Fn(T, T, T) -> T,
    S: Fn(T, usize) -> T,
    M: Fn(T, T) -> T,
    E: Fn(T, T) -> T,
    A: Fn(T, T) -> T,
    R: Fn(T) -> T,
    W: Fn(T, T) -> T,
>(
    kernel: SoftmaxKernel<T, D, S, M, E, A, R, W>,
    q: Seq<T>,
    k: Seq<T>,
    v: Seq<T>,
    out: Seq<T>,
    s: GqaShape,
    bh: int,
    p: int,
) -> bool {
    let o = s.q_row(bh, p);
    let kv = s.kv_block(bh) * s.kv_head_len();
    softmax_row::row_attention(
        kernel,
        q.subrange(o, o + s.head_dim),
        k.subrange(kv, kv + s.kv_head_len()),
        v.subrange(kv, kv + s.kv_head_len()),
        s.seq_kv as int,
        out.subrange(o, o + s.head_dim),
    )
}

/// `out` is the grouped-query attention of `q` to `k` and `v`: the prefill
/// kernel's answer on the replicated keys and values where the sequence
/// lengths agree, and otherwise row by row the softmax attention to the
/// key/value block of the group.
pub open spec fn attended<
    T,
    P: Fn(AttentionShape, &[T], &[T], &[T]) -> Option<Vec<T>>,
    D: Fn(T, T, T) -> T,
    S: Fn(T, usize) -> T,
    M: Fn(T, T) -> T,
    E: Fn(T, T) -> T,
    A: Fn(T, T) -> T,
    R: Fn(T) -> T,
    W: Fn(T, T) -> T,
>(
    flash: P,
    kernel: SoftmaxKernel<T, D, S, M, E, A, R, W>,
    q: Seq<T>,
    k: Seq<T>,
    v: Seq<T>,
    s: GqaShape,
    out: Seq<T>,
) -> bool {
    &&& out.len() == s.q_len()
    &&& s.seq_q == s.seq_kv ==> flashes(
        flash,
        s.prefill(),
        q,
        replicated(k, s),
        replicated(v, s),
        Some(out),
    )
    &&& s.seq_q != s.seq_kv ==> forall|bh: int, p: int|
        0 <= bh < s.batch * s.n_heads && 0 <= p < s.seq_q ==> #[trigger] row_attended(
            kernel,
            q,
            k,
            v,
            out,
            s,
            bh,
            p,
        )
}

/// The prefill kernel refuses the call.
pub open spec fn refused<T, P: Fn(AttentionShape, &[T], &[T], &[T]) -> Option<Vec<T>>>(
    flash: P,
    q: Seq<T>,
    k: Seq<T>,
    v: Seq<T>,
    s: GqaShape,
) -> bool {
    s.seq_q == s.seq_kv && flashes(
        flash,
        s.prefill(),
        q,
        replicated(k, s),
        replicated(v, s),
        None,
    )
}

/// Grouped-query attention without a mask.
///
/// `q` and `out` are row-major `[batch, n_heads, seq_q, head_dim]`, `k` and
/// `v` are `[batch, n_kv_heads, seq_kv, head_dim]`. Where the sequence lengths
/// agree the keys and values are replicated per query head and handed to
/// `flash` in one call; otherwise each query row attends to the key/value
/// block of its group by softmax over its positions, with the arithmetic of
/// `kernel`. On success `out` is overwritten in full.
pub fn gqa_forward_f32<
    T: Copy,
    P: Fn(AttentionShape, &[T], &[T], &[T]) -> Option<Vec<T>>,
    D: Fn(T, T, T) -> T,
    S: Fn(T, usize) -> T,
    M: Fn(T, T) -> T,
    E: Fn(T, T) -> T,
    A: Fn(T, T) -> T,
    R: Fn(T) -> T,
    W: Fn(T, T) -> T,
>(
    q: &[T],
    k: &[T],
    v: &[T],
    out: &mut [T],
    s: GqaShape,
    flash: &P,
    kernel: &SoftmaxKernel<T, D, S, M, E, A, R, W>,
) -> (r: Result<(), GQAError>)
    requires
        s.fits(),
        softmax_row::total(*kernel),
        s.error(q@.len(), k@.len(), v@.len(), old(out)@.len()) is None ==> {
            &&& s.kv_head_len() <= usize::MAX
            &&& s.seq_q == s.seq_kv ==> flash_kernel(*flash, s)
            &&& s.seq_q != s.seq_kv ==> s.seq_q * s.head_dim > 0
            &&& s.seq_q * s.head_dim <= usize::MAX
        },
    ensures
        final(out)@.len() == old(out)@.len(),
        match r {
            Ok(()) => {
                &&& s.error(q@.len(), k@.len(), v@.len(), old(out)@.len()) is None
                &&& attended(*flash, *kernel, q@, k@, v@, s, final(out)@)
            },
            Err(e) => {
                &&& final(out)@ == old(out)@
                &&& match s.error(q@.len(), k@.len(), v@.len(), old(out)@.len()) {
                    Some(expected) => e == expected,
                    None => refused(*flash, q@, k@, v@, s) && e == wrong_len(
                        "flash_forward",
                        0,
                        0,
                    ),
                }
            },
        },
{
    let n: usize = s.seq_kv;
    let attend = |q_row: &[T], k_block: &[T], v_block: &[T]| -> (y: Vec<T>)
        requires
            k_block@.len() == n * q_row@.len(),
            v_block@.len() == n * q_row@.len(),
        ensures
            softmax_row::row_attention(*kernel, q_row@, k_block@, v_block@, n as int, y@),
        { softmax_row::attend_row(kernel, q_row, k_block, v_block, n) };
    let r = gqa_by_rows(q, k, v, out, s, flash, &attend);
    proof {
        if r is Ok && s.seq_q != s.seq_kv {
            assert forall|bh: int, p: int|
                0 <= bh < s.batch * s.n_heads && 0 <= p < s.seq_q implies #[trigger] row_attended(
                *kernel,
                q@,
                k@,
                v@,
                out@,
                s,
                bh,
                p,
            ) by {
                assert(row_done(attend, q@, k@, v@, out@, s, bh, p));
            }
        }
    }
    r
}

/// Query head `h` of batch entry `b` reads key/value head
/// `h / (n_heads / n_kv_heads)` of the same batch entry.
pub proof fn law_head_mapping(s: GqaShape, b: int, h: int)
    requires
        s.heads_ok(),
        0 <= b < s.batch,
        0 <= h < s.n_heads,
    ensures
        s.kv_block(b * s.n_heads + h) == b * s.n_kv_heads + h / s.group_size(),
        0 <= h / s.group_size() < s.n_kv_heads,
{
    let nh = s.n_heads as int;
    let bh = b * nh + h;
    blocks::lemma_at_bounds(b, nh, h, s.batch as int);
    lemma_kv_block(s, bh);
    assert(bh / nh == b && bh % nh == h) by (nonlinear_arith)
        requires
            bh == b * nh + h,
            0 <= h < nh,
    ;
}

/// With as many key/value heads as query heads nothing is shared: block `j`
/// reads block `j`, and replication is the identity. Grouped-query attention
/// is then plain multi-head attention.
pub proof fn law_equal_heads_is_mha<T>(s: GqaShape, src: Seq<T>)
    requires
        s.n_heads == s.n_kv_heads,
        s.n_kv_heads > 0,
        src.len() == s.kv_len(),
    ensures
        forall|bh: int| 0 <= bh < s.batch * s.n_heads ==> #[trigger] s.kv_block(bh) == bh,
        replicated(src, s) == src,
{
    let nh = s.n_heads as int;
    assert(nh % nh == 0 && nh / nh == 1) by (nonlinear_arith)
        requires
            nh > 0,
    ;
    lemma_products(s);
    assert forall|bh: int| 0 <= bh < s.batch * s.n_heads implies #[trigger] s.kv_block(bh) == bh by {
        lemma_kv_block(s, bh);
        assert((bh % nh) / 1 == bh % nh);
        assert((bh / nh) * nh + bh % nh == bh) by (nonlinear_arith)
            requires
                nh > 0,
        ;
    }
    let w = s.kv_head_len();
    assert forall|i: int| 0 <= i < src.len() implies replicated(src, s)[i] == src[i] by {
        assert(w > 0) by (nonlinear_arith)
            requires
                0 < s.batch * s.n_kv_heads * w,
                0 <= s.batch * s.n_kv_heads,
                0 <= w,
        ;
        blocks::lemma_at_surjective(i, w, s.batch * s.n_heads);
        assert(s.kv_block(i / w) == i / w);
    }
    assert(replicated(src, s) =~= src);
}

/// All query heads of a group see the same keys and values: their replicated
/// blocks are equal element for element.
pub proof fn law_group_shares_kv<T>(s: GqaShape, src: Seq<T>, b: int, h1: int, h2: int, r: int)
    requires
        s.heads_ok(),
        0 <= b < s.batch,
        0 <= h1 < s.n_heads,
        0 <= h2 < s.n_heads,
        h1 / s.group_size() == h2 / s.group_size(),
        0 <= r < s.kv_head_len(),
    ensures
        replicated(src, s)[blocks::at(b * s.n_heads + h1, s.kv_head_len(), r)] == replicated(
            src,
            s,
        )[blocks::at(b * s.n_heads + h2, s.kv_head_len(), r)],
        replicated(src, s)[blocks::at(b * s.n_heads + h1, s.kv_head_len(), r)] == src[blocks::at(
            b * s.n_kv_heads + h1 / s.group_size(),
            s.kv_head_len(),
            r,
        )],
{
    lemma_replicated_at(s, src, b, h1, r);
    lemma_replicated_at(s, src, b, h2, r);
}

proof fn lemma_replicated_at<T>(s: GqaShape, src: Seq<T>, b: int, h: int, r: int)
    requires
        s.heads_ok(),
        0 <= b < s.batch,
        0 <= h < s.n_heads,
        0 <= r < s.kv_head_len(),
    ensures
        replicated(src, s)[blocks::at(b * s.n_heads + h, s.kv_head_len(), r)] == src[blocks::at(
            b * s.n_kv_heads + h / s.group_size(),
            s.kv_head_len(),
            r,
        )],
{
    let w = s.kv_head_len();
    let bh = b * s.n_heads + h;
    law_head_mapping(s, b, h);
    blocks::lemma_at_bounds(b, s.n_heads as int, h, s.batch as int);
    blocks::lemma_at_bounds(bh, w, r, s.batch * s.n_heads);
    let i = blocks::at(bh, w, r);
    blocks::lemma_at_surjective(i, w, s.batch * s.n_heads);
    blocks::lemma_at_injective(i / w, i % w, bh, r, w);
}

/// The same axes with a key/value head for each query head.
pub open spec fn ungrouped(s: GqaShape) -> GqaShape {
    GqaShape { n_kv_heads: s.n_heads, ..s }
}

proof fn lemma_replicated_block<T>(s: GqaShape, src: Seq<T>, bh: int)
    requires
        s.heads_ok(),
        src.len() == s.kv_len(),
        0 <= bh < s.batch * s.n_heads,
    ensures
        ({
            let w = s.kv_head_len();
            let kv = s.kv_block(bh) * w;
            &&& 0 <= bh * w && bh * w + w <= replicated(src, s).len()
            &&& 0 <= kv && kv + w <= src.len()
            &&& replicated(src, s).subrange(bh * w, bh * w + w) == src.subrange(kv, kv + w)
        }),
{
    let w = s.kv_head_len();
    let nb = s.batch * s.n_heads;
    let kb = s.kv_block(bh);
    lemma_products(s);
    lemma_kv_block(s, bh);
    assert(w >= 0) by (nonlinear_arith)
        requires
            w == s.seq_kv * s.head_dim,
    ;
    assert(0 <= bh * w && bh * w + w <= nb * w) by (nonlinear_arith)
        requires
            0 <= bh,
            bh + 1 <= nb,
            w >= 0,
    ;
    assert(0 <= kb * w && kb * w + w <= (s.batch * s.n_kv_heads) * w) by (nonlinear_arith)
        requires
            0 <= kb,
            kb + 1 <= s.batch * s.n_kv_heads,
            w >= 0,
    ;
    assert forall|r: int| 0 <= r < w implies #[trigger] replicated(src, s)[blocks::at(bh, w, r)]
        == src[blocks::at(kb, w, r)] by {
        blocks::lemma_at_bounds(bh, w, r, nb);
        let i = blocks::at(bh, w, r);
        blocks::lemma_at_surjective(i, w, nb);
        blocks::lemma_at_injective(i / w, i % w, bh, r, w);
    }
    let x = replicated(src, s).subrange(bh * w, bh * w + w);
    let y = src.subrange(kb * w, kb * w + w);
    assert forall|r: int| 0 <= r < w implies #[trigger] x[r] == y[r] by {
        assert(x[r] == replicated(src, s)[blocks::at(bh, w, r)]);
        assert(y[r] == src[blocks::at(kb, w, r)]);
    }
    assert(x =~= y);
}

/// Grouped-query attention with at least one head is attention on replicated
/// keys and values: giving each query head its own copy of the keys and values
/// of its group changes neither which buffers are accepted, nor what is
/// computed, nor when the prefill kernel refuses.
pub proof fn law_gqa_is_attention_on_replicas<
    T,
    P: Fn(AttentionShape, &[T], &[T], &[T]) -> Option<Vec<T>>,
    D: Fn(T, T, T) -> T,
    S: Fn(T, usize) -> T,
    M: Fn(T, T) -> T,
    E: Fn(T, T) -> T,
    A: Fn(T, T) -> T,
    R: Fn(T) -> T,
    W: Fn(T, T) -> T,
>(
    flash: P,
    kernel: SoftmaxKernel<T, D, S, M, E, A, R, W>,
    q: Seq<T>,
    k: Seq<T>,
    v: Seq<T>,
    s: GqaShape,
    out: Seq<T>,
)
    requires
        s.n_heads > 0,
        s.error(q.len(), k.len(), v.len(), out.len()) is None,
    ensures
        ungrouped(s).error(
            q.len(),
            replicated(k, s).len(),
            replicated(v, s).len(),
            out.len(),
        ) is None,
        attended(flash, kernel, q, k, v, s, out) <==> attended(
            flash,
            kernel,
            q,
            replicated(k, s),
            replicated(v, s),
            ungrouped(s),
            out,
        ),
        refused(flash, q, k, v, s) <==> refused(
            flash,
            q,
            replicated(k, s),
            replicated(v, s),
            ungrouped(s),
        ),
{
    let u = ungrouped(s);
    let rk = replicated(k, s);
    let rv = replicated(v, s);
    lemma_products(s);
    let nh = s.n_heads as int;
    assert(nh % nh == 0 && nh / nh == 1) by (nonlinear_arith)
        requires
            nh > 0,
    ;
    lemma_products(u);
    law_equal_heads_is_mha(u, rk);
    law_equal_heads_is_mha(u, rv);
    assert forall|bh: int, p: int|
        #![trigger row_attended(kernel, q, k, v, out, s, bh, p)]
        #![trigger row_attended(kernel, q, rk, rv, out, u, bh, p)]
        0 <= bh < s.batch * s.n_heads && 0 <= p < s.seq_q implies row_attended(
        kernel,
        q,
        k,
        v,
        out,
        s,
        bh,
        p,
    ) == row_attended(kernel, q, rk, rv, out, u, bh, p) by {
        lemma_replicated_block(s, k, bh);
        lemma_replicated_block(s, v, bh);
        blocks::lemma_at_surjective(bh, nh, s.batch as int);
        assert((bh % nh) / 1 == bh % nh);
        assert(u.kv_block(bh) == bh);
    }
}

/// The output is overwritten in full: two calls on the same queries, keys and
/// values leave the same output, whatever it held before, as long as the
/// prefill kernel and the arithmetic have no other inputs.
pub proof fn law_output_is_determined<
    T,
    P: Fn(AttentionShape, &[T], &[T], &[T]) -> Option<Vec<T>>,
    D: Fn(T, T, T) -> T,
    S: Fn(T, usize) -> T,
    M: Fn(T, T) -> T,
    E: Fn(T, T) -> T,
    A: Fn(T, T) -> T,
    R: Fn(T) -> T,
    W: Fn(T, T) -> T,
>(
    flash: P,
    kernel: SoftmaxKernel<T, D, S, M, E, A, R, W>,
    q: Seq<T>,
    k: Seq<T>,
    v: Seq<T>,
    s: GqaShape,
    out1: Seq<T>,
    out2: Seq<T>,
)
    requires
        softmax_row::deterministic(kernel),
        forall|a: Seq<T>, b: Seq<T>, c: Seq<T>, y: Option<Seq<T>>, z: Option<Seq<T>>|
            #[trigger] flashes(flash, s.prefill(), a, b, c, y) && #[trigger] flashes(
                flash,
                s.prefill(),
                a,
                b,
                c,
                z,
            ) ==> y == z,
        attended(flash, kernel, q, k, v, s, out1),
        attended(flash, kernel, q, k, v, s, out2),
    ensures
        out1 == out2,
{
    if s.seq_q != s.seq_kv {
        let hd = s.head_dim as int;
        let rows = s.batch * s.n_heads * s.seq_q;
        assert forall|i: int| 0 <= i < out1.len() implies out1[i] == out2[i] by {
            assert(hd > 0 && rows > 0) by (nonlinear_arith)
                requires
                    0 < rows * hd,
                    0 <= hd,
                    0 <= rows,
            ;
            blocks::lemma_at_surjective(i, hd, rows);
            let row = i / hd;
            let c = i % hd;
            let sq = s.seq_q as int;
            let nb = s.batch * s.n_heads;
            assert(sq > 0) by (nonlinear_arith)
                requires
                    0 < nb * sq,
                    0 <= sq,
                    0 <= nb,
            ;
            blocks::lemma_at_surjective(row, sq, nb);
            let bh = row / sq;
            let p = row % sq;
            let o = s.q_row(bh, p);
            assert(o == row * hd);
            assert(o + hd <= rows * hd && 0 <= o) by (nonlinear_arith)
                requires
                    o == row * hd,
                    0 <= row,
                    row + 1 <= rows,
                    0 < hd,
            ;
            let kv = s.kv_block(bh) * s.kv_head_len();
            assert(row_attended(kernel, q, k, v, out1, s, bh, p));
            assert(row_attended(kernel, q, k, v, out2, s, bh, p));
            softmax_row::law_row_is_determined(
                kernel,
                q.subrange(o, o + hd),
                k.subrange(kv, kv + s.kv_head_len()),
                v.subrange(kv, kv + s.kv_head_len()),
                s.seq_kv as int,
                out1.subrange(o, o + hd),
                out2.subrange(o, o + hd),
            );
            assert(out1[i] == out1.subrange(o, o + hd)[c]);
            assert(out2[i] == out2.subrange(o, o + hd)[c]);
        }
        assert(out1 =~= out2);
    }
}

/// The key/value cache is smaller than that of plain multi-head attention by
/// the size of a group.
pub proof fn law_cache_saving(s: GqaShape)
    requires
        s.heads_ok(),
    ensures
        s.batch * s.n_heads * s.kv_head_len() == s.group_size() * s.kv_len(),
{
    let nh = s.n_heads as int;
    let nkv = s.n_kv_heads as int;
    let g = s.group_size();
    let b = s.batch as int;
    let w = s.kv_head_len();
    lemma_products(s);
    assert(nh == g * nkv) by (nonlinear_arith)
        requires
            nkv > 0,
            nh % nkv == 0,
            g == nh / nkv,
    ;
    assert(b * (g * nkv) * w == g * (b * nkv * w)) by (nonlinear_arith);
}

/// Entry `c` of query row `p` of head `h` of batch entry `b`: the attention of
/// that row of `q` to the keys and values of head `h / group_size` of the same
/// batch entry, over row-major `[batch, heads, positions, head_dim]` buffers.
pub open spec fn grouped_at<T>(
    num: Num<T>,
    lowest: T,
    s: GqaShape,
    q: Seq<T>,
    k: Seq<T>,
    v: Seq<T>,
    b: int,
    h: int,
    p: int,
    c: int,
) -> T {
    let d = s.head_dim as int;
    let row = ((b * s.n_heads + h) * s.seq_q + p) * d;
    let head = b * s.n_kv_heads + h / (s.n_heads as int / s.n_kv_heads as int);
    softmax_row::mixed(
        num,
        lowest,
        s.head_dim as nat,
        s.seq_kv as int,
        |l: int| q[row + l],
        |j: int, l: int| k[(head * s.seq_kv + j) * d + l],
        |j: int| v[(head * s.seq_kv + j) * d + c],
    )
}

/// Grouped-query attention gives each query row the softmax attention to the
/// keys and values of its group. Where the call goes to the prefill kernel,
/// this holds of every kernel that computes plain attention.
pub proof fn law_gqa_computes<
    T,
    P: Fn(AttentionShape, &[T], &[T], &[T]) -> Option<Vec<T>>,
    D: Fn(T, T, T) -> T,
    S: Fn(T, usize) -> T,
    M: Fn(T, T) -> T,
    E: Fn(T, T) -> T,
    A: Fn(T, T) -> T,
    R: Fn(T) -> T,
    W: Fn(T, T) -> T,
>(
    flash: P,
    kernel: SoftmaxKernel<T, D, S, M, E, A, R, W>,
    num: Num<T>,
    q: Seq<T>,
    k: Seq<T>,
    v: Seq<T>,
    s: GqaShape,
    out: Seq<T>,
    b: int,
    h: int,
    p: int,
    c: int,
)
    requires
        softmax_row::computes_with(kernel, num),
        s.error(q.len(), k.len(), v.len(), out.len()) is None,
        attended(flash, kernel, q, k, v, s, out),
        forall|a: AttentionShape, x: &[T], y: &[T], z: &[T], r: Vec<T>, g: int, i: int, l: int|
            #![trigger call_ensures(flash, (a, x, y, z), Some(r)), plain_at(
                num,
                kernel.lowest,
                a,
                x@,
                y@,
                z@,
                g,
                i,
                l,
            )]
            call_ensures(flash, (a, x, y, z), Some(r)) && 0 <= g < a.batch * a.n_heads && 0 <= i
                < a.seq_len && 0 <= l < a.head_dim ==> r@[(g * a.seq_len + i) * a.head_dim + l]
                == plain_at(num, kernel.lowest, a, x@, y@, z@, g, i, l),
        0 <= b < s.batch,
        0 <= h < s.n_heads,
        0 <= p < s.seq_q,
        0 <= c < s.head_dim,
    ensures
        out[((b * s.n_heads + h) * s.seq_q + p) * s.head_dim + c] == grouped_at(
            num,
            kernel.lowest,
            s,
            q,
            k,
            v,
            b,
            h,
            p,
            c,
        ),
{
    let d = s.head_dim as int;
    let bh = b * s.n_heads + h;
    let w = s.kv_head_len();
    let o = (bh * s.seq_q + p) * d;
    let head = b * s.n_kv_heads + h / s.group_size();
    law_head_mapping(s, b, h);
    assert(0 <= bh < s.batch * s.n_heads) by (nonlinear_arith)
        requires
            bh == b * s.n_heads + h,
            0 <= b < s.batch,
            0 <= h < s.n_heads,
    ;
    assert(0 <= o && o + d <= s.batch * s.n_heads * s.seq_q * d) by {
        let rows = s.batch * s.n_heads;
        let row = bh * s.seq_q + p;
        assert(0 <= row < rows * s.seq_q) by (nonlinear_arith)
            requires
                row == bh * s.seq_q + p,
                0 <= bh < rows,
                0 <= p < s.seq_q,
        ;
        let all = rows * s.seq_q;
        assert(0 <= row * d && row * d + d <= all * d) by (nonlinear_arith)
            requires
                0 <= row < all,
                0 <= d,
        ;
    }
    assert(0 <= head * w && head * w + w <= s.batch * s.n_kv_heads * s.seq_kv * d) by {
        let blocks = s.batch * s.n_kv_heads;
        assert(0 <= head < blocks) by (nonlinear_arith)
            requires
                head == b * s.n_kv_heads + h / s.group_size(),
                0 <= b < s.batch,
                0 <= h / s.group_size() < s.n_kv_heads,
                blocks == s.batch * s.n_kv_heads,
        ;
        assert(w >= 0) by (nonlinear_arith)
            requires
                w == s.seq_kv * s.head_dim,
        ;
        assert(0 <= head * w && head * w + w <= blocks * w) by (nonlinear_arith)
            requires
                0 <= head < blocks,
                w >= 0,
        ;
        let n = s.seq_kv as int;
        assert(blocks * w == blocks * n * d) by (nonlinear_arith)
            requires
                w == n * d,
        ;
    }
    let q2 = |l: int| q[o + l];
    let k2 = |j: int, l: int| k[(head * s.seq_kv + j) * d + l];
    let v2 = |j: int| v[(head * s.seq_kv + j) * d + c];
    if s.seq_q != s.seq_kv {
        assert(row_attended(kernel, q, k, v, out, s, bh, p));
        let qr = q.subrange(o, o + d);
        let kb = k.subrange(head * w, head * w + w);
        let vb = v.subrange(head * w, head * w + w);
        let y = out.subrange(o, o + d);
        assert(s.kv_block(bh) == head);
        softmax_row::law_row_attention_computes(
            kernel,
            num,
            qr,
            kb,
            vb,
            s.seq_kv as int,
            y,
            c,
        );
        let q1 = |l: int| qr[l];
        let k1 = |j: int, l: int| kb[j * qr.len() + l];
        let v1 = |j: int| vb[j * qr.len() + c];
        assert forall|j: int, l: int| 0 <= j < s.seq_kv && 0 <= l < d implies #[trigger] k1(j, l)
            == k2(j, l) by {
            lemma_inner_index(head, s.seq_kv as int, d, j, l);
        }
        assert forall|j: int| 0 <= j < s.seq_kv implies #[trigger] v1(j) == v2(j) by {
            lemma_inner_index(head, s.seq_kv as int, d, j, c);
        }
        softmax_row::lemma_mixed_congruent(
            num,
            kernel.lowest,
            s.head_dim as nat,
            s.seq_kv as int,
            q1,
            k1,
            v1,
            q2,
            k2,
            v2,
        );
    } else {
        let a = s.prefill();
        let kr = replicated(k, s);
        let vr = replicated(v, s);
        let (qs, ks, vs, r) = choose|qs: &[T], ks: &[T], vs: &[T], r: Option<Vec<T>>|
            qs@ == q && ks@ == kr && vs@ == vr && (match (r, Some(out)) {
                (Some(rv), Some(ys)) => rv@ == ys,
                (None, None) => true,
                _ => false,
            }) && #[trigger] call_ensures(flash, (a, qs, ks, vs), r);
        let rv = r->0;
        assert(call_ensures(flash, (a, qs, ks, vs), Some(rv)));
        let y = plain_at(num, kernel.lowest, a, qs@, ks@, vs@, bh, p, c);
        assert(out[o + c] == y);
        let q1 = |l: int| q[(bh * a.seq_len + p) * a.head_dim + l];
        let k1 = |j: int, l: int| kr[(bh * a.seq_len + j) * a.head_dim + l];
        let v1 = |j: int| vr[(bh * a.seq_len + j) * a.head_dim + c];
        assert forall|j: int, l: int| 0 <= j < s.seq_kv && 0 <= l < d implies #[trigger] k1(j, l)
            == k2(j, l) by {
            lemma_inner_index(bh, s.seq_kv as int, d, j, l);
            lemma_inner_index(head, s.seq_kv as int, d, j, l);
            lemma_replicated_at(s, k, b, h, j * d + l);
        }
        assert forall|j: int| 0 <= j < s.seq_kv implies #[trigger] v1(j) == v2(j) by {
            lemma_inner_index(bh, s.seq_kv as int, d, j, c);
            lemma_inner_index(head, s.seq_kv as int, d, j, c);
            lemma_replicated_at(s, v, b, h, j * d + c);
        }
        softmax_row::lemma_mixed_congruent(
            num,
            kernel.lowest,
            s.head_dim as nat,
            s.seq_kv as int,
            q1,
            k1,
            v1,
            q2,
            k2,
            v2,
        );
    }
}

/// Entry `l` of row `i` of block `g` of plain attention over row-major
/// `[blocks, positions, head_dim]` buffers.
pub open spec fn plain_at<T>(
    num: Num<T>,
    lowest: T,
    a: AttentionShape,
    q: Seq<T>,
    k: Seq<T>,
    v: Seq<T>,
    g: int,
    i: int,
    l: int,
) -> T {
    softmax_row::mixed(
        num,
        lowest,
        a.head_dim as nat,
        a.seq_len as int,
        |x: int| q[(g * a.seq_len + i) * a.head_dim + x],
        |j: int, x: int| k[(g * a.seq_len + j) * a.head_dim + x],
        |j: int| v[(g * a.seq_len + j) * a.head_dim + l],
    )
}

proof fn lemma_inner_index(block: int, n: int, d: int, j: int, l: int)
    requires
        0 <= j < n,
        0 <= l < d,
    ensures
        (block * n + j) * d + l == block * (n * d) + (j * d + l),
        0 <= j * d + l < n * d,
{
    assert((block * n + j) * d + l == block * (n * d) + (j * d + l)) by (nonlinear_arith);
    assert(0 <= j * d + l < n * d) by (nonlinear_arith)
        requires
            0 <= j < n,
            0 <= l < d,
    ;
}

/// A call that succeeds gives each query row the softmax attention to the keys
/// and values of its group, and one that is refused leaves the output as it
/// was.
pub proof fn law_gqa_call<
    T: Copy,
    P: Fn(AttentionShape, &[T], &[T], &[T]) -> Option<Vec<T>>,
    D: Fn(T, T, T) -> T,
    S: Fn(T, usize) -> T,
    M: Fn(T, T) -> T,
    E: Fn(T, T) -> T,
    A: Fn(T, T) -> T,
    R: Fn(T) -> T,
    W: Fn(T, T) -> T,
>(
    flash: &P,
    kernel: &SoftmaxKernel<T, D, S, M, E, A, R, W>,
    num: Num<T>,
    q: &[T],
    k: &[T],
    v: &[T],
    s: GqaShape,
    out: &mut [T],
    r: Result<(), GQAError>,
    b: int,
    h: int,
    p: int,
    c: int,
)
    requires
        softmax_row::computes_with(*kernel, num),
        call_ensures(
            gqa_forward_f32::<T, P, D, S, M, E, A, R, W>,
            (q, k, v, out, s, flash, kernel),
            r,
        ),
        forall|a: AttentionShape, x: &[T], y: &[T], z: &[T], w: Vec<T>, g: int, i: int, l: int|
            #![trigger call_ensures(*flash, (a, x, y, z), Some(w)), plain_at(
                num,
                kernel.lowest,
                a,
                x@,
                y@,
                z@,
                g,
                i,
                l,
            )]
            call_ensures(*flash, (a, x, y, z), Some(w)) && 0 <= g < a.batch * a.n_heads && 0 <= i
                < a.seq_len && 0 <= l < a.head_dim ==> w@[(g * a.seq_len + i) * a.head_dim + l]
                == plain_at(num, kernel.lowest, a, x@, y@, z@, g, i, l),
        0 <= b < s.batch,
        0 <= h < s.n_heads,
        0 <= p < s.seq_q,
        0 <= c < s.head_dim,
    ensures
        r is Ok ==> final(out)@[((b * s.n_heads + h) * s.seq_q + p) * s.head_dim + c] == grouped_at(
            num,
            kernel.lowest,
            s,
            q@,
            k@,
            v@,
            b,
            h,
            p,
            c,
        ),
        r is Err ==> final(out)@ == old(out)@,
        final(out)@.len() == old(out)@.len(),
{
    if r is Ok {
        law_gqa_computes(*flash, *kernel, num, q@, k@, v@, s, final(out)@, b, h, p, c);
    }
}

} // verus!
