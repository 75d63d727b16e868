//! Row-major buffers cut into blocks of equal size.
use vstd::prelude::*;

verus! {

/// Position of element `r` of block `j` in a buffer of blocks of size `w`.
pub open spec fn at(j: int, w: int, r: int) -> int {
    j * w + r
}

/// Flat position of element `[b, h, s, d]` in a row-major buffer whose last
/// three axes have `n_h`, `n_s` and `n_d` entries.
pub open spec fn at4(b: int, h: int, s: int, d: int, n_h: int, n_s: int, n_d: int) -> int {
    ((b * n_h + h) * n_s + s) * n_d + d
}

/// Blocks do not overlap, and together they fill the buffer.
pub proof fn lemma_at_bounds(j: int, w: int, r: int, n: int)
    requires
        0 <= j < n,
        0 <= r < w,
    ensures
        0 <= j * w <= at(j, w, r) < (j + 1) * w <= n * w,
        (j + 1) * w == j * w + w,
{
    assert(0 <= j * w) by (nonlinear_arith)
        requires
            0 <= j,
            0 < w,
    ;
    assert((j + 1) * w == j * w + w) by (nonlinear_arith);
    assert((j + 1) * w <= n * w) by (nonlinear_arith)
        requires
            j + 1 <= n,
            0 < w,
    ;
}

/// Two positions coincide only if they name the same element of the same block.
pub proof fn lemma_at_injective(j1: int, r1: int, j2: int, r2: int, w: int)
    requires
        0 <= r1 < w,
        0 <= r2 < w,
        at(j1, w, r1) == at(j2, w, r2),
    ensures
        j1 == j2,
        r1 == r2,
{
    assert(j1 == j2) by (nonlinear_arith)
        requires
            0 <= r1 < w,
            0 <= r2 < w,
            j1 * w + r1 == j2 * w + r2,
    ;
}

/// Every position of a buffer of `n` blocks lies in one of them.
pub proof fn lemma_at_surjective(i: int, w: int, n: int)
    requires
        0 < w,
        0 <= i < n * w,
    ensures
        0 <= i / w < n,
        0 <= i % w < w,
        i == at(i / w, w, i % w),
{
    assert(i == (i / w) * w + i % w && 0 <= i % w < w && 0 <= i / w) by (nonlinear_arith)
        requires
            0 < w,
            0 <= i,
    ;
    assert(i / w < n) by (nonlinear_arith)
        requires
            0 < w,
            i == (i / w) * w + i % w,
            0 <= i % w,
            i < n * w,
    ;
}

/// The four-axis position is that of element `s * n_d + d` of block
/// `b * n_h + h`.
pub proof fn lemma_at4(b: int, h: int, s: int, d: int, n_b: int, n_h: int, n_s: int, n_d: int)
    requires
        0 <= b < n_b,
        0 <= h < n_h,
        0 <= s < n_s,
        0 <= d < n_d,
    ensures
        0 <= b * n_h + h < n_b * n_h,
        0 <= s * n_d + d < n_s * n_d,
        at4(b, h, s, d, n_h, n_s, n_d) == at(b * n_h + h, n_s * n_d, s * n_d + d),
        0 <= at4(b, h, s, d, n_h, n_s, n_d) < n_b * n_h * (n_s * n_d),
        n_b * n_h * (n_s * n_d) == n_b * n_h * n_s * n_d,
{
    lemma_at_bounds(b, n_h, h, n_b);
    lemma_at_bounds(s, n_d, d, n_s);
    lemma_at_bounds(b * n_h + h, n_s * n_d, s * n_d + d, n_b * n_h);
    let j = b * n_h + h;
    assert((j * n_s + s) * n_d + d == j * (n_s * n_d) + (s * n_d + d)) by (nonlinear_arith);
    let bh = n_b * n_h;
    assert(bh * (n_s * n_d) == bh * n_s * n_d) by (nonlinear_arith);
}

/// A buffer of `n` copies of `x`.
pub fn filled<T: Copy>(x: T, n: usize) -> (out: Vec<T>)
    ensures
        out@ == Seq::new(n as nat, |i: int| x),
{
    let mut out: Vec<T> = Vec::with_capacity(n);
    let mut t: usize = 0;
    while t < n
        invariant
            t <= n,
            out@ == Seq::new(t as nat, |i: int| x),
        decreases n - t,
    {
        out.push(x);
        t += 1;
    }
    out
}

/// Overwrites `dst[dst_off..dst_off + n]` with `src[src_off..src_off + n]`.
pub fn copy_block<T: Copy>(dst: &mut Vec<T>, dst_off: usize, src: &[T], src_off: usize, n: usize)
    requires
        dst_off + n <= old(dst)@.len(),
        src_off + n <= src@.len(),
    ensures
        final(dst)@.len() == old(dst)@.len(),
        forall|i: int|
            0 <= i < old(dst)@.len() ==> #[trigger] final(dst)@[i] == (if dst_off <= i < dst_off + n {
                src@[src_off + (i - dst_off)]
            } else {
                old(dst)@[i]
            }),
{
    let dst_len: usize = dst.len();
    let src_len: usize = src.len();
    let mut t: usize = 0;
    while t < n
        invariant
            t <= n,
            dst_off + n <= dst_len == dst@.len(),
            src_off + n <= src_len == src@.len(),
            dst@.len() == old(dst)@.len(),
            forall|i: int|
                0 <= i < dst@.len() ==> #[trigger] dst@[i] == (if dst_off <= i < dst_off + t {
                    src@[src_off + (i - dst_off)]
                } else {
                    old(dst)@[i]
                }),
        decreases n - t,
    {
        dst[dst_off + t] = src[src_off + t];
        t += 1;
    }
}

/// Writes block `j` of `src` (blocks of `n`) over the `n` elements at offset
/// `lo` of block `j` of `dst` (blocks of `w`), for every `j < count`. What
/// lies outside those ranges stays as it is.
pub fn scatter_blocks<T: Copy>(
    dst: &mut Vec<T>,
    w: usize,
    lo: usize,
    src: &[T],
    n: usize,
    count: usize,
)
    requires
        lo + n <= w,
        old(dst)@.len() == count * w,
        src@.len() == count * n,
    ensures
        final(dst)@.len() == old(dst)@.len(),
        forall|j: int, r: int|
            0 <= j < count && 0 <= r < w ==> #[trigger] final(dst)@[at(j, w as int, r)] == (if lo <= r
                < lo + n {
                src@[at(j, n as int, r - lo)]
            } else {
                old(dst)@[at(j, w as int, r)]
            }),
{
    let ghost before = dst@;
    let dst_len: usize = dst.len();
    let src_len: usize = src.len();
    let mut j: usize = 0;
    let mut dst_off: usize = 0;
    let mut src_off: usize = 0;
    while j < count
        invariant
            j <= count,
            lo + n <= w,
            dst@.len() == count * w == dst_len,
            before == old(dst)@,
            before.len() == count * w,
            src@.len() == count * n == src_len,
            dst_off == j * w,
            src_off == j * n,
            dst_off <= count * w,
            src_off <= count * n,
            forall|p: int, r: int|
                0 <= p < count && 0 <= r < w ==> #[trigger] dst@[at(p, w as int, r)] == (if p < j && lo
                    <= r < lo + n {
                    src@[at(p, n as int, r - lo)]
                } else {
                    before[at(p, w as int, r)]
                }),
        decreases count - j,
    {
        let ghost mid = dst@;
        proof {
            assert((j + 1) * w == j * w + w) by (nonlinear_arith);
            assert((j + 1) * n == j * n + n) by (nonlinear_arith);
            assert((j + 1) * w <= count * w) by (nonlinear_arith)
                requires
                    j + 1 <= count,
            ;
            assert((j + 1) * n <= count * n) by (nonlinear_arith)
                requires
                    j + 1 <= count,
            ;
        }
        copy_block(dst, dst_off + lo, src, src_off, n);
        proof {
            assert forall|p: int, r: int| 0 <= p < count && 0 <= r < w implies #[trigger] dst@[at(
                p,
                w as int,
                r,
            )] == (if p < j + 1 && lo <= r < lo + n {
                src@[at(p, n as int, r - lo)]
            } else {
                before[at(p, w as int, r)]
            }) by {
                lemma_at_bounds(p, w as int, r, count as int);
                assert(mid[at(p, w as int, r)] == (if p < j && lo <= r < lo + n {
                    src@[at(p, n as int, r - lo)]
                } else {
                    before[at(p, w as int, r)]
                }));
                if p < j {
                    assert((p + 1) * w <= j * w) by (nonlinear_arith)
                        requires
                            p + 1 <= j,
                    ;
                } else if p > j {
                    assert((j + 1) * w <= p * w) by (nonlinear_arith)
                        requires
                            j + 1 <= p,
                    ;
                }
            }
        }
        j += 1;
        dst_off += w;
        src_off += n;
    }
}

/// Concatenates the blocks `order[0]`, `order[1]`, ... of `src` (blocks of
/// `size`).
pub fn gather_blocks<T: Copy>(src: &[T], size: usize, order: &Vec<usize>, count: usize) -> (out:
    Vec<T>)
    requires
        src@.len() == count * size,
        forall|j: int| 0 <= j < order@.len() ==> #[trigger] order@[j] < count,
        order@.len() * size <= usize::MAX,
    ensures
        out@.len() == order@.len() * size,
        forall|j: int, r: int|
            0 <= j < order@.len() && 0 <= r < size ==> #[trigger] out@[at(j, size as int, r)]
                == src@[at(order@[j] as int, size as int, r)],
{
    let mut out: Vec<T> = Vec::with_capacity(order.len() * size);
    let src_len: usize = src.len();
    let mut j: usize = 0;
    while j < order.len()
        invariant
            j <= order@.len(),
            src@.len() == count * size == src_len,
            forall|p: int| 0 <= p < order@.len() ==> #[trigger] order@[p] < count,
            out@.len() == j * size,
            forall|p: int, r: int|
                0 <= p < j && 0 <= r < size ==> #[trigger] out@[at(p, size as int, r)] == src@[at(
                    order@[p] as int,
                    size as int,
                    r,
                )],
        decreases order.len() - j,
    {
        let blk: usize = order[j];
        let mut t: usize = 0;
        proof {
            assert(order@[j as int] < count);
            assert(blk * size + size <= count * size) by (nonlinear_arith)
                requires
                    blk + 1 <= count,
            ;
        }
        let off: usize = blk * size;
        while t < size
            invariant
                t <= size,
                j < order@.len(),
                blk < count,
                off == blk * size,
                off + size <= src_len == src@.len(),
                out@.len() == j * size + t,
                forall|p: int, r: int|
                    0 <= p < j && 0 <= r < size ==> #[trigger] out@[at(p, size as int, r)] == src@[at(
                        order@[p] as int,
                        size as int,
                        r,
                    )],
                forall|r: int|
                    0 <= r < t ==> #[trigger] out@[at(j as int, size as int, r)] == src@[at(
                        blk as int,
                        size as int,
                        r,
                    )],
            decreases size - t,
        {
            let ghost mid = out@;
            out.push(src[off + t]);
            proof {
                assert forall|p: int, r: int| 0 <= p < j && 0 <= r < size implies #[trigger] out@[at(
                    p,
                    size as int,
                    r,
                )] == src@[at(order@[p] as int, size as int, r)] by {
                    lemma_at_bounds(p, size as int, r, j as int);
                    assert(mid[at(p, size as int, r)] == src@[at(order@[p] as int, size as int, r)]);
                }
                assert forall|r: int| 0 <= r < t + 1 implies #[trigger] out@[at(
                    j as int,
                    size as int,
                    r,
                )] == src@[at(blk as int, size as int, r)] by {
                    if r < t {
                        assert(mid[at(j as int, size as int, r)] == src@[at(
                            blk as int,
                            size as int,
                            r,
                        )]);
                    }
                }
            }
            t += 1;
        }
        proof {
            assert((j + 1) * size == j * size + size) by (nonlinear_arith);
            assert forall|p: int, r: int| 0 <= p < j + 1 && 0 <= r < size implies #[trigger] out@[at(
                p,
                size as int,
                r,
            )] == src@[at(order@[p] as int, size as int, r)] by {
                if p == j {
                    assert(out@[at(j as int, size as int, r)] == src@[at(blk as int, size as int, r)]);
                }
            }
        }
        j += 1;
    }
    out
}

} // verus!
