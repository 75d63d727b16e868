//! What the kernels of a decoding step do to the buffers.
use crate::metal::decode;
use crate::metal::device;
use crate::metal::device::{Launch, Memory};
use crate::metal::dispatch;
use crate::nn::meaning::Num;
use crate::nn::softmax_row;
use vstd::prelude::*;

verus! {

/// Entry `i` of a row of `d`, over the root of its mean square, scaled by `g`:
/// `row[i] * (1 / sqrt(sum / d + eps)) * g`, where `add_up` adds the squares.
pub open spec fn normed<T>(
    num: Num<T>,
    add_up: spec_fn(nat, spec_fn(int) -> T) -> T,
    d: nat,
    eps: T,
    row: spec_fn(int) -> T,
    i: int,
    g: T,
) -> T {
    let mean = (num.div)(add_up(d, |l: int| num.square(row(l))), (num.of_nat)(d));
    let inv = (num.div)(num.one, (num.sqrt)((num.add)(mean, eps)));
    (num.mul)((num.mul)(row(i), inv), g)
}

/// What the row normalisation does: the input is at slot 0, the scale at slot
/// 1, the result at slot 2, the width at slot 3 and the bits of the epsilon at
/// slot 4. One simdgroup works.
pub open spec fn norm_kernel<T>(
    num: Num<T>,
    add_up: spec_fn(nat, spec_fn(int) -> T) -> T,
    l: Launch<T>,
) -> Seq<Seq<T>> {
    let d = l.words[3][0] as int;
    device::writing(
        l,
        2,
        |x: int| x < d && l.width == 32 && 0 < l.groups.0,
        |x: int|
            normed(
                num,
                add_up,
                d as nat,
                (num.of_bits)(l.words[4][0]),
                |i: int| l.bufs[0][i],
                x,
                l.bufs[1][x],
            ),
    )
}

/// The same on rows: the words at slot 3 are the width and the number of rows;
/// threadgroup `b` works on row `b`.
pub open spec fn norm_rows_kernel<T>(
    num: Num<T>,
    add_up: spec_fn(nat, spec_fn(int) -> T) -> T,
    l: Launch<T>,
) -> Seq<Seq<T>> {
    let d = l.words[3][0] as int;
    device::writing(
        l,
        2,
        |x: int| x / d < l.words[3][1] && x / d < l.groups.0 && l.width == 32,
        |x: int|
            normed(
                num,
                add_up,
                d as nat,
                (num.of_bits)(l.words[4][0]),
                |i: int| l.bufs[0][x / d * d + i],
                x % d,
                l.bufs[1][x % d],
            ),
    )
}

/// The same in place on heads: the buffer is at slot 0, the scale at slot 1;
/// the words at slot 2 are the number of heads, their width and, where `rows`,
/// the number of rows; the epsilon is at slot 3. Threadgroup `h` works on head
/// `h`, counted over all rows.
pub open spec fn norm_heads_kernel<T>(
    num: Num<T>,
    add_up: spec_fn(nat, spec_fn(int) -> T) -> T,
    rows: bool,
    l: Launch<T>,
) -> Seq<Seq<T>> {
    let heads = if rows {
        l.words[2][0] * l.words[2][2]
    } else {
        l.words[2][0] as int
    };
    let d = l.words[2][1] as int;
    device::writing(
        l,
        0,
        |x: int| x / d < heads && x / d < l.groups.0 && l.width == 32,
        |x: int|
            normed(
                num,
                add_up,
                d as nat,
                (num.of_bits)(l.words[3][0]),
                |i: int| l.bufs[0][x / d * d + i],
                x % d,
                l.bufs[1][x % d],
            ),
    )
}

/// A launch of `n` threadgroups of 32 threads.
pub proof fn lemma_groups(n: nat, w: nat)
    requires
        w > 0,
    ensures
        dispatch::ceil_div(w * n, w) == n,
{
    assert((w * n) % w == 0 && (w * n) / w == n) by (nonlinear_arith)
        requires
            w > 0,
            n >= 0,
    ;
}

/// Rows of width `d`, one after the other.
pub proof fn lemma_row_of(r: int, d: int, i: int, n: int)
    requires
        0 <= r < n,
        0 <= i < d,
    ensures
        (r * d + i) / d == r,
        (r * d + i) % d == i,
        0 <= r * d + i < n * d,
{
    assert((r * d + i) / d == r && (r * d + i) % d == i && 0 <= r * d + i < n * d)
        by (nonlinear_arith)
        requires
            0 <= r < n,
            0 <= i < d,
    ;
}

/// The root-mean-square normalisation of a row gives `x / sqrt(mean(x^2) + eps)
/// * gamma`.
pub proof fn law_rms_norm_computes<T>(
    d: usize,
    eps_bits: u32,
    num: Num<T>,
    add_up: spec_fn(nat, spec_fn(int) -> T) -> T,
    device: spec_fn(Seq<char>, Launch<T>) -> Seq<Seq<T>>,
    mem: Memory<T>,
    i: int,
)
    requires
        forall|l: Launch<T>| #[trigger] device("rms_norm_f32"@, l) == norm_kernel(num, add_up, l),
        d <= u32::MAX,
        mem.args.len() == 3,
        mem.args[2].len() >= d,
        0 <= i < d,
    ensures
        device::carried_out(device, decode::rms_norm_plan(d, eps_bits), mem).args[2][i] == normed(
            num,
            add_up,
            d as nat,
            (num.of_bits)(eps_bits),
            |l: int| mem.args[0][l],
            i,
            mem.args[1][i],
        ),
{
    let p = decode::rms_norm_plan(d, eps_bits);
    device::lemma_single(device, p, mem);
    reveal_with_fuel(device::left, 7);
    let l = device::seen(p, p.dispatches[0], mem);
    lemma_groups(1, 32);
    assert(l.words[3] == seq![d as u32] && l.words[4] == seq![eps_bits]);
    assert(l.bufs[0] == mem.args[0] && l.bufs[1] == mem.args[1] && l.bufs[2] == mem.args[2]);
    assert(l.bufs.len() == 5);
}

/// On `b` rows of `d` elements, row `r` is normalised on its own, with the one
/// scale.
pub proof fn law_rms_norm_batched_computes<T>(
    d: usize,
    b: usize,
    eps_bits: u32,
    num: Num<T>,
    add_up: spec_fn(nat, spec_fn(int) -> T) -> T,
    device: spec_fn(Seq<char>, Launch<T>) -> Seq<Seq<T>>,
    mem: Memory<T>,
    r: int,
    i: int,
)
    requires
        forall|l: Launch<T>| #[trigger]
            device("rms_norm_batched_f32"@, l) == norm_rows_kernel(num, add_up, l),
        d <= u32::MAX && b <= u32::MAX,
        mem.args.len() == 3,
        mem.args[2].len() >= b * d,
        0 <= r < b,
        0 <= i < d,
    ensures
        device::carried_out(device, decode::rms_norm_batched_plan(d, b, eps_bits), mem).args[2][r
            * d + i] == normed(
            num,
            add_up,
            d as nat,
            (num.of_bits)(eps_bits),
            |l: int| mem.args[0][r * d + l],
            i,
            mem.args[1][i],
        ),
{
    let p = decode::rms_norm_batched_plan(d, b, eps_bits);
    device::lemma_single(device, p, mem);
    reveal_with_fuel(device::left, 7);
    let l = device::seen(p, p.dispatches[0], mem);
    lemma_groups(b as nat, 32);
    lemma_row_of(r, d as int, i, b as int);
    assert(l.words[3] == seq![d as u32, b as u32] && l.words[4] == seq![eps_bits]);
    assert(l.bufs[0] == mem.args[0] && l.bufs[1] == mem.args[1] && l.bufs[2] == mem.args[2]);
    assert(l.bufs.len() == 5);
    let x = r * d + i;
    let f = |k: int| mem.args[0][x / (d as int) * (d as int) + k];
    let g = |k: int| mem.args[0][r * d + k];
    assert(f =~= g);
}

/// The normalisation of each head is that of its `head_dim` elements, in place
/// and with the one scale, for the heads of one row and of `b` rows alike.
pub proof fn law_rms_norm_per_head_computes<T>(
    n_heads: usize,
    head_dim: usize,
    b: usize,
    eps_bits: u32,
    num: Num<T>,
    add_up: spec_fn(nat, spec_fn(int) -> T) -> T,
    device: spec_fn(Seq<char>, Launch<T>) -> Seq<Seq<T>>,
    mem: Memory<T>,
    h: int,
    i: int,
)
    requires
        forall|l: Launch<T>| #[trigger]
            device("rms_norm_per_head_f32"@, l) == norm_heads_kernel(num, add_up, false, l),
        forall|l: Launch<T>| #[trigger]
            device("rms_norm_per_head_batched_f32"@, l) == norm_heads_kernel(num, add_up, true, l),
        n_heads <= u32::MAX && head_dim <= u32::MAX && b <= u32::MAX,
        mem.args.len() == 2,
        0 <= h,
        0 <= i < head_dim,
    ensures
        ({
            let x = h * head_dim + i;
            let v = normed(
                num,
                add_up,
                head_dim as nat,
                (num.of_bits)(eps_bits),
                |l: int| mem.args[0][h * head_dim + l],
                i,
                mem.args[1][i],
            );
            let one = decode::rms_norm_per_head_plan(n_heads, head_dim, eps_bits);
            let all = decode::rms_norm_per_head_batched_plan(n_heads, head_dim, b, eps_bits);
            &&& h < n_heads && mem.args[0].len() >= n_heads * head_dim ==> device::carried_out(
                device,
                one,
                mem,
            ).args[0][x] == v
            &&& h < n_heads * b && mem.args[0].len() >= n_heads * b * head_dim
                ==> device::carried_out(device, all, mem).args[0][x] == v
        }),
{
    let one = decode::rms_norm_per_head_plan(n_heads, head_dim, eps_bits);
    let all = decode::rms_norm_per_head_batched_plan(n_heads, head_dim, b, eps_bits);
    device::lemma_single(device, one, mem);
    device::lemma_single(device, all, mem);
    reveal_with_fuel(device::left, 6);
    let l = device::seen(one, one.dispatches[0], mem);
    let k = device::seen(all, all.dispatches[0], mem);
    assert(n_heads * b >= 0) by (nonlinear_arith);
    lemma_groups(n_heads as nat, 32);
    lemma_groups((n_heads * b) as nat, 32);
    assert(l.words[2] == seq![n_heads as u32, head_dim as u32] && l.words[3] == seq![eps_bits]);
    assert(k.words[2] == seq![n_heads as u32, head_dim as u32, b as u32] && k.words[3]
        == seq![eps_bits]);
    assert(l.bufs[0] == mem.args[0] && l.bufs[1] == mem.args[1]);
    assert(k.bufs[0] == mem.args[0] && k.bufs[1] == mem.args[1]);
    assert(l.bufs.len() == 4 && k.bufs.len() == 4);
    let d = head_dim as int;
    let x = h * head_dim + i;
    lemma_row_of(h, d, i, h + 1);
    let f = |j: int| mem.args[0][x / d * d + j];
    let g = |j: int| mem.args[0][h * head_dim + j];
    assert(f =~= g);
    if h < n_heads {
        lemma_row_of(h, d, i, n_heads as int);
    }
    if h < n_heads * b {
        lemma_row_of(h, d, i, n_heads * b);
    }
}

/// `g / (1 + exp(-g)) * u`.
pub open spec fn gated<T>(num: Num<T>, neg: spec_fn(T) -> T, g: T, u: T) -> T {
    (num.mul)((num.div)(g, (num.add)(num.one, (num.exp)(neg(g)))), u)
}

/// What the gated product does: the gating factor is at slot 0, the other one
/// at slot 1, the result at slot 2, and the words at slot 3 multiply to the number of elements.
pub open spec fn swiglu_kernel<T>(
    num: Num<T>,
    neg: spec_fn(T) -> T,
    rows: bool,
    l: Launch<T>,
) -> Seq<Seq<T>> {
    let n = if rows {
        l.words[3][0] * l.words[3][1]
    } else {
        l.words[3][0] as int
    };
    device::writing(
        l,
        2,
        |x: int| x < n && x < l.threads.0,
        |x: int| gated(num, neg, l.bufs[0][x], l.bufs[1][x]),
    )
}

/// The gated product gives `silu(x) * y` at every element.
pub proof fn law_swiglu_computes<T>(
    f: usize,
    b: usize,
    num: Num<T>,
    neg: spec_fn(T) -> T,
    device: spec_fn(Seq<char>, Launch<T>) -> Seq<Seq<T>>,
    mem: Memory<T>,
    x: int,
)
    requires
        forall|l: Launch<T>| #[trigger]
            device("swiglu_f32"@, l) == swiglu_kernel(num, neg, false, l),
        forall|l: Launch<T>| #[trigger]
            device("swiglu_batched_f32"@, l) == swiglu_kernel(num, neg, true, l),
        f <= u32::MAX && b <= u32::MAX,
        mem.args.len() == 3,
        0 <= x < mem.args[2].len(),
    ensures
        ({
            let v = gated(num, neg, mem.args[0][x], mem.args[1][x]);
            &&& x < f ==> device::carried_out(device, decode::swiglu_plan(f), mem).args[2][x] == v
            &&& x < f * b ==> device::carried_out(
                device,
                decode::swiglu_batched_plan(f, b),
                mem,
            ).args[2][x] == v
        }),
{
    let one = decode::swiglu_plan(f);
    let all = decode::swiglu_batched_plan(f, b);
    device::lemma_single(device, one, mem);
    device::lemma_single(device, all, mem);
    reveal_with_fuel(device::left, 6);
    let l = device::seen(one, one.dispatches[0], mem);
    let k = device::seen(all, all.dispatches[0], mem);
    assert(l.words[3] == seq![f as u32] && k.words[3] == seq![f as u32, b as u32]);
    assert(l.bufs[0] == mem.args[0] && l.bufs[1] == mem.args[1] && l.bufs[2] == mem.args[2]);
    assert(k.bufs[0] == mem.args[0] && k.bufs[1] == mem.args[1] && k.bufs[2] == mem.args[2]);
    assert(l.bufs.len() == 4 && k.bufs.len() == 4);
    assert(f * b >= 0) by (nonlinear_arith);
}

/// Element `x` of `n` has a thread in a launch of `threads` threads that each
/// take four elements, and one each of what is left.
pub open spec fn by_fours(n: int, threads: int, x: int) -> bool {
    if x / 4 < n / 4 {
        x / 4 < threads
    } else {
        n / 4 + (x - n / 4 * 4) < threads
    }
}

/// What the addition in place does: the sum goes to slot 0, the other term is at
/// slot 1, and the words at slot 2 multiply to the number of elements.
pub open spec fn add_inplace_kernel<T>(num: Num<T>, rows: bool, l: Launch<T>) -> Seq<Seq<T>> {
    let n = if rows {
        l.words[2][0] * l.words[2][1]
    } else {
        l.words[2][0] as int
    };
    device::writing(
        l,
        0,
        |x: int| x < n && by_fours(n, l.threads.0 as int, x),
        |x: int| (num.add)(l.bufs[0][x], l.bufs[1][x]),
    )
}

/// The addition in place gives `x + y` at every element: the threads that take
/// four elements and those that take one leave none out.
pub proof fn law_add_inplace_computes<T>(
    d: usize,
    b: usize,
    num: Num<T>,
    device: spec_fn(Seq<char>, Launch<T>) -> Seq<Seq<T>>,
    mem: Memory<T>,
    x: int,
)
    requires
        forall|l: Launch<T>| #[trigger]
            device("add_inplace_f32"@, l) == add_inplace_kernel(num, false, l),
        forall|l: Launch<T>| #[trigger]
            device("add_inplace_batched_f32"@, l) == add_inplace_kernel(num, true, l),
        d <= u32::MAX && b <= u32::MAX,
        mem.args.len() == 2,
        0 <= x < mem.args[0].len(),
    ensures
        ({
            let v = (num.add)(mem.args[0][x], mem.args[1][x]);
            &&& x < d ==> device::carried_out(device, decode::add_inplace_plan(d), mem).args[0][x]
                == v
            &&& x < d * b ==> device::carried_out(
                device,
                decode::add_inplace_batched_plan(d, b),
                mem,
            ).args[0][x] == v
        }),
{
    let one = decode::add_inplace_plan(d);
    let all = decode::add_inplace_batched_plan(d, b);
    device::lemma_single(device, one, mem);
    device::lemma_single(device, all, mem);
    reveal_with_fuel(device::left, 5);
    let l = device::seen(one, one.dispatches[0], mem);
    let k = device::seen(all, all.dispatches[0], mem);
    assert(l.words[2] == seq![d as u32] && k.words[2] == seq![d as u32, b as u32]);
    assert(l.bufs[0] == mem.args[0] && l.bufs[1] == mem.args[1]);
    assert(k.bufs[0] == mem.args[0] && k.bufs[1] == mem.args[1]);
    assert(l.bufs.len() == 3 && k.bufs.len() == 3);
    assert(d * b >= 0) by (nonlinear_arith);
}

/// What appending to a cache does: the new entries are at slot 0, the cache of
/// `[heads, positions, width]` entries at slot 1; the words at slot 2 are the
/// number of heads, their width and the position, and the word at slot 3 is the
/// number of positions.
pub open spec fn append_kernel<T>(l: Launch<T>) -> Seq<Seq<T>> {
    let heads = l.words[2][0] as int;
    let d = l.words[2][1] as int;
    let position = l.words[2][2] as int;
    let positions = l.words[3][0] as int;
    device::writing(
        l,
        1,
        |x: int|
            {
                let h = x / d / positions;
                &&& x / d % positions == position
                &&& h < heads
                &&& by_fours(heads * d, l.threads.0 as int, h * d + x % d)
            },
        |x: int| l.bufs[0][x / d / positions * d + x % d],
    )
}

/// Position of entry `c` at position `s` of head `h` in a cache.
pub proof fn lemma_cache_index(h: int, s: int, c: int, heads: int, positions: int, d: int)
    requires
        0 <= h < heads,
        0 <= s < positions,
        0 <= c < d,
    ensures
        ({
            let x = (h * positions + s) * d + c;
            &&& 0 <= x < heads * positions * d
            &&& x / d == h * positions + s
            &&& x % d == c
            &&& x / d / positions == h
            &&& x / d % positions == s
        }),
{
    lemma_row_of(h, positions, s, heads);
    lemma_row_of(h * positions + s, d, c, heads * positions);
}

/// Appending writes head `h` of the new entries to the given position of head
/// `h` of the cache, and leaves every other position alone. The kernel moves
/// four entries at a time, which takes heads of a multiple of four entries.
pub proof fn law_kv_append_computes<T>(
    n_kv: usize,
    head_dim: usize,
    position: usize,
    max_seq: usize,
    device: spec_fn(Seq<char>, Launch<T>) -> Seq<Seq<T>>,
    mem: Memory<T>,
    h: int,
    s: int,
    c: int,
)
    requires
        forall|l: Launch<T>|
            l.words[2][1] % 4 == 0 ==> #[trigger] device("kv_append_f32"@, l) == append_kernel(l),
        head_dim % 4 == 0,
        n_kv <= u32::MAX && head_dim <= u32::MAX && max_seq <= u32::MAX,
        position < max_seq,
        mem.args.len() == 2,
        mem.args[1].len() >= n_kv * max_seq * head_dim,
        0 <= h < n_kv,
        0 <= s < max_seq,
        0 <= c < head_dim,
    ensures
        ({
            let x = (h * max_seq + s) * head_dim + c;
            device::carried_out(
                device,
                decode::kv_append_plan(n_kv, head_dim, position, max_seq),
                mem,
            ).args[1][x] == if s == position {
                mem.args[0][h * head_dim + c]
            } else {
                mem.args[1][x]
            }
        }),
{
    let p = decode::kv_append_plan(n_kv, head_dim, position, max_seq);
    device::lemma_single(device, p, mem);
    reveal_with_fuel(device::left, 6);
    let l = device::seen(p, p.dispatches[0], mem);
    assert(l.words[2] == seq![n_kv as u32, head_dim as u32, position as u32] && l.words[3]
        == seq![max_seq as u32]);
    assert(l.bufs[0] == mem.args[0] && l.bufs[1] == mem.args[1]);
    assert(l.bufs.len() == 4);
    lemma_cache_index(h, s, c, n_kv as int, max_seq as int, head_dim as int);
    lemma_row_of(h, head_dim as int, c, n_kv as int);
    assert(n_kv * head_dim >= 0) by (nonlinear_arith);
}

/// What appending several positions does: as for one, with the first position
/// and the number of positions as the last words at slot 2.
pub open spec fn append_rows_kernel<T>(l: Launch<T>) -> Seq<Seq<T>> {
    let heads = l.words[2][0] as int;
    let d = l.words[2][1] as int;
    let base = l.words[2][2] as int;
    let rows = l.words[2][3] as int;
    let positions = l.words[3][0] as int;
    let from = |x: int|
        {
            let b = x / d % positions - base;
            b * (heads * d) + (x / d / positions * d + x % d)
        };
    device::writing(
        l,
        1,
        |x: int|
            {
                let b = x / d % positions - base;
                0 <= b < rows && x / d / positions < heads && from(x) < l.threads.0
            },
        |x: int| l.bufs[0][from(x)],
    )
}

/// Appending `b` positions writes row `s - base` of the new entries to position
/// `s`, for the `b` positions from `base` on, and leaves the others alone.
pub proof fn law_kv_append_batched_computes<T>(
    n_kv: usize,
    head_dim: usize,
    base: usize,
    b: usize,
    max_seq: usize,
    device: spec_fn(Seq<char>, Launch<T>) -> Seq<Seq<T>>,
    mem: Memory<T>,
    h: int,
    s: int,
    c: int,
)
    requires
        forall|l: Launch<T>| #[trigger]
            device("kv_append_batched_f32"@, l) == append_rows_kernel(l),
        n_kv <= u32::MAX && head_dim <= u32::MAX && max_seq <= u32::MAX,
        base <= u32::MAX && b <= u32::MAX,
        mem.args.len() == 2,
        mem.args[1].len() >= n_kv * max_seq * head_dim,
        0 <= h < n_kv,
        0 <= s < max_seq,
        0 <= c < head_dim,
    ensures
        ({
            let x = (h * max_seq + s) * head_dim + c;
            device::carried_out(
                device,
                decode::kv_append_batched_plan(n_kv, head_dim, base, b, max_seq),
                mem,
            ).args[1][x] == if base <= s < base + b {
                mem.args[0][(s - base) * (n_kv * head_dim) + (h * head_dim + c)]
            } else {
                mem.args[1][x]
            }
        }),
{
    let p = decode::kv_append_batched_plan(n_kv, head_dim, base, b, max_seq);
    device::lemma_single(device, p, mem);
    reveal_with_fuel(device::left, 6);
    let l = device::seen(p, p.dispatches[0], mem);
    assert(l.words[2] == seq![n_kv as u32, head_dim as u32, base as u32, b as u32] && l.words[3]
        == seq![max_seq as u32]);
    assert(l.bufs[0] == mem.args[0] && l.bufs[1] == mem.args[1]);
    assert(l.bufs.len() == 4);
    lemma_cache_index(h, s, c, n_kv as int, max_seq as int, head_dim as int);
    lemma_row_of(h, head_dim as int, c, n_kv as int);
    let w = n_kv * head_dim;
    if base <= s < base + b {
        lemma_row_of(s - base, w, h * head_dim + c, b as int);
        assert(b * w == b * n_kv * head_dim) by (nonlinear_arith)
            requires
                w == n_kv * head_dim,
        ;
    }
}

/// What appending keys and values at once does: the new keys and values are at
/// slots 0 and 1, the caches at slots 2 and 3, the words at slots 4 and 5. The
/// first half of the threads moves the keys, the second half the values.
pub open spec fn append_both_kernel<T>(l: Launch<T>) -> Seq<Seq<T>> {
    let heads = l.words[4][0] as int;
    let d = l.words[4][1] as int;
    let position = l.words[4][2] as int;
    let positions = l.words[5][0] as int;
    let moved = |src: int, dst: int, first: int|
        Seq::new(
            l.bufs[dst].len(),
            |x: int|
                {
                    let from = x / d / positions * d + x % d;
                    if x / d % positions == position && x / d / positions < heads && first + from
                        < l.threads.0 {
                        l.bufs[src][from]
                    } else {
                        l.bufs[dst][x]
                    }
                },
        );
    l.bufs.update(2, moved(0, 2, 0)).update(3, moved(1, 3, heads * d))
}

/// Appending keys and values at once is appending the keys to the cache of
/// keys and the values to the cache of values.
pub proof fn law_kv_append_kv_computes<T>(
    n_kv: usize,
    head_dim: usize,
    position: usize,
    max_seq: usize,
    device: spec_fn(Seq<char>, Launch<T>) -> Seq<Seq<T>>,
    mem: Memory<T>,
    h: int,
    s: int,
    c: int,
)
    requires
        forall|l: Launch<T>| #[trigger] device("kv_append_kv_f32"@, l) == append_both_kernel(l),
        n_kv <= u32::MAX && head_dim <= u32::MAX && max_seq <= u32::MAX,
        position < max_seq,
        mem.args.len() == 4,
        mem.args[2].len() >= n_kv * max_seq * head_dim,
        mem.args[3].len() >= n_kv * max_seq * head_dim,
        0 <= h < n_kv,
        0 <= s < max_seq,
        0 <= c < head_dim,
    ensures
        ({
            let x = (h * max_seq + s) * head_dim + c;
            let after = device::carried_out(
                device,
                decode::kv_append_kv_plan(n_kv, head_dim, position, max_seq),
                mem,
            );
            &&& after.args[2][x] == if s == position {
                mem.args[0][h * head_dim + c]
            } else {
                mem.args[2][x]
            }
            &&& after.args[3][x] == if s == position {
                mem.args[1][h * head_dim + c]
            } else {
                mem.args[3][x]
            }
        }),
{
    let p = decode::kv_append_kv_plan(n_kv, head_dim, position, max_seq);
    device::lemma_single(device, p, mem);
    reveal_with_fuel(device::left, 8);
    let l = device::seen(p, p.dispatches[0], mem);
    assert(l.words[4] == seq![n_kv as u32, head_dim as u32, position as u32] && l.words[5]
        == seq![max_seq as u32]);
    assert(l.bufs[0] == mem.args[0] && l.bufs[1] == mem.args[1] && l.bufs[2] == mem.args[2]
        && l.bufs[3] == mem.args[3]);
    assert(l.bufs.len() == 6);
    lemma_cache_index(h, s, c, n_kv as int, max_seq as int, head_dim as int);
    lemma_row_of(h, head_dim as int, c, n_kv as int);
}

/// A rotated pair: `x0 * c - x1 * s` first, `x1 * c + x0 * s` second.
pub open spec fn rotated<T>(num: Num<T>, first: bool, x0: T, x1: T, c: T, s: T) -> T {
    if first {
        (num.sub)((num.mul)(x0, c), (num.mul)(x1, s))
    } else {
        (num.add)((num.mul)(x1, c), (num.mul)(x0, s))
    }
}

/// Entry `i` of a head with entries `x`, of which the first `2 * half` are
/// rotated in pairs `[k, k + half]` by the angles of row `position` of the
/// tables of cosines and sines.
pub open spec fn roped<T>(
    num: Num<T>,
    half: int,
    position: int,
    cos: Seq<T>,
    sin: Seq<T>,
    x: spec_fn(int) -> T,
    i: int,
) -> T {
    if i < half {
        let t = position * half + i;
        rotated(num, true, x(i), x(i + half), cos[t], sin[t])
    } else if i < 2 * half {
        let t = position * half + (i - half);
        rotated(num, false, x(i - half), x(i), cos[t], sin[t])
    } else {
        x(i)
    }
}

/// What the rotation does, in place at slot 0, with the cosines at slot 1 and
/// the sines at slot 2; the words at slot 3 are the number of heads, their
/// width, the number of rotated entries and the position. Each thread rotates a
/// pair.
pub open spec fn rope_kernel<T>(num: Num<T>, l: Launch<T>) -> Seq<Seq<T>> {
    let heads = l.words[3][0] as int;
    let d = l.words[3][1] as int;
    let half = l.words[3][2] as int / 2;
    let position = l.words[3][3] as int;
    device::writing(
        l,
        0,
        |x: int|
            {
                let i = x % d;
                x / d < heads && i < 2 * half && x / d * half + i % half < l.threads.0
            },
        |x: int|
            roped(
                num,
                half,
                position,
                l.bufs[1],
                l.bufs[2],
                |i: int| l.bufs[0][x / d * d + i],
                x % d,
            ),
    )
}

/// The rotary embedding rotates the first `rope_dim` entries of each head in
/// halves, by the angles of the given position, and leaves the rest.
pub proof fn law_rope_computes<T>(
    n_heads: usize,
    head_dim: usize,
    rope_dim: usize,
    position: usize,
    num: Num<T>,
    device: spec_fn(Seq<char>, Launch<T>) -> Seq<Seq<T>>,
    mem: Memory<T>,
    h: int,
    i: int,
)
    requires
        forall|l: Launch<T>| #[trigger] device("rope_half_split_f32"@, l) == rope_kernel(num, l),
        n_heads <= u32::MAX && head_dim <= u32::MAX && position <= u32::MAX,
        0 < rope_dim <= head_dim,
        rope_dim % 2 == 0,
        mem.args.len() == 3,
        mem.args[0].len() >= n_heads * head_dim,
        0 <= h < n_heads,
        0 <= i < head_dim,
    ensures
        device::carried_out(
            device,
            decode::rope_half_split_plan(n_heads, head_dim, rope_dim, position),
            mem,
        ).args[0][h * head_dim + i] == roped(
            num,
            rope_dim as int / 2,
            position as int,
            mem.args[1],
            mem.args[2],
            |j: int| mem.args[0][h * head_dim + j],
            i,
        ),
{
    let p = decode::rope_half_split_plan(n_heads, head_dim, rope_dim, position);
    device::lemma_single(device, p, mem);
    reveal_with_fuel(device::left, 6);
    let l = device::seen(p, p.dispatches[0], mem);
    assert(l.words[3] == seq![
        n_heads as u32,
        head_dim as u32,
        rope_dim as u32,
        position as u32,
    ]);
    assert(l.bufs[0] == mem.args[0] && l.bufs[1] == mem.args[1] && l.bufs[2] == mem.args[2]);
    assert(l.bufs.len() == 4);
    let d = head_dim as int;
    lemma_row_of(h, d, i, n_heads as int);
    let half = rope_dim as int / 2;
    let x = h * head_dim + i;
    let f = |j: int| mem.args[0][x / d * d + j];
    let g = |j: int| mem.args[0][h * head_dim + j];
    assert(f =~= g);
    if i < 2 * half {
        lemma_row_of(h, half, i % half, n_heads as int);
        assert(n_heads * (rope_dim / 2) >= 0) by (nonlinear_arith);
    }
}

/// What the rotation of rows does: as for one row, with the first position and
/// the number of rows as the last words at slot 3, and all entries rotated. The
/// grid has a row of threads for each row.
pub open spec fn rope_rows_kernel<T>(num: Num<T>, l: Launch<T>) -> Seq<Seq<T>> {
    let heads = l.words[3][0] as int;
    let d = l.words[3][1] as int;
    let half = d / 2;
    let base = l.words[3][2] as int;
    let rows = l.words[3][3] as int;
    device::writing(
        l,
        0,
        |x: int|
            {
                let b = x / d / heads;
                let i = x % d;
                b < rows && b < l.threads.1 && i < 2 * half && x / d % heads * half + i % half
                    < l.threads.0
            },
        |x: int|
            roped(
                num,
                half,
                base + x / d / heads,
                l.bufs[1],
                l.bufs[2],
                |i: int| l.bufs[0][x / d * d + i],
                x % d,
            ),
    )
}

/// On `b` rows, row `r` is rotated by the angles of position `base + r`.
pub proof fn law_rope_batched_computes<T>(
    n_heads: usize,
    head_dim: usize,
    base: usize,
    b: usize,
    num: Num<T>,
    device: spec_fn(Seq<char>, Launch<T>) -> Seq<Seq<T>>,
    mem: Memory<T>,
    r: int,
    h: int,
    i: int,
)
    requires
        forall|l: Launch<T>| #[trigger]
            device("rope_half_split_batched_f32"@, l) == rope_rows_kernel(num, l),
        n_heads <= u32::MAX && head_dim <= u32::MAX && base <= u32::MAX && b <= u32::MAX,
        mem.args.len() == 3,
        mem.args[0].len() >= b * n_heads * head_dim,
        0 <= r < b,
        0 <= h < n_heads,
        0 <= i < head_dim,
    ensures
        ({
            let head = (r * n_heads + h) * head_dim;
            device::carried_out(
                device,
                decode::rope_half_split_batched_plan(n_heads, head_dim, base, b),
                mem,
            ).args[0][head + i] == roped(
                num,
                head_dim as int / 2,
                base + r,
                mem.args[1],
                mem.args[2],
                |j: int| mem.args[0][head + j],
                i,
            )
        }),
{
    let p = decode::rope_half_split_batched_plan(n_heads, head_dim, base, b);
    device::lemma_single(device, p, mem);
    reveal_with_fuel(device::left, 6);
    let l = device::seen(p, p.dispatches[0], mem);
    assert(l.words[3] == seq![n_heads as u32, head_dim as u32, base as u32, b as u32]);
    assert(l.bufs[0] == mem.args[0] && l.bufs[1] == mem.args[1] && l.bufs[2] == mem.args[2]);
    assert(l.bufs.len() == 4);
    let d = head_dim as int;
    lemma_cache_index(r, h, i, b as int, n_heads as int, d);
    let half = d / 2;
    let head = (r * n_heads + h) * head_dim;
    let x = head + i;
    let f = |j: int| mem.args[0][x / d * d + j];
    let g = |j: int| mem.args[0][head + j];
    assert(f =~= g);
    if i < 2 * half {
        lemma_row_of(h, half, i % half, n_heads as int);
        assert(n_heads * (head_dim / 2) >= 0) by (nonlinear_arith);
    }
}

/// What normalisation followed by rotation does, in place at slot 0, with the
/// scale at slot 1, the cosines at slot 2 and the sines at slot 3; the words at
/// slot 4 are the number of heads, their width and the position, and the
/// epsilon is at slot 5. Threadgroup `h` works on head `h`.
pub open spec fn norm_rope_kernel<T>(
    num: Num<T>,
    add_up: spec_fn(nat, spec_fn(int) -> T) -> T,
    l: Launch<T>,
) -> Seq<Seq<T>> {
    let d = l.words[4][1] as int;
    let eps = (num.of_bits)(l.words[5][0]);
    device::writing(
        l,
        0,
        |x: int| x / d < l.words[4][0] && x / d < l.groups.0 && l.width == 32,
        |x: int|
            roped(
                num,
                d / 2,
                l.words[4][2] as int,
                l.bufs[2],
                l.bufs[3],
                |i: int|
                    normed(
                        num,
                        add_up,
                        d as nat,
                        eps,
                        |k: int| l.bufs[0][x / d * d + k],
                        i,
                        l.bufs[1][i],
                    ),
                x % d,
            ),
    )
}

/// Normalisation followed by rotation gives the rotated entries of the
/// normalised head.
pub proof fn law_norm_then_rope_computes<T>(
    n_heads: usize,
    head_dim: usize,
    position: usize,
    eps_bits: u32,
    num: Num<T>,
    add_up: spec_fn(nat, spec_fn(int) -> T) -> T,
    device: spec_fn(Seq<char>, Launch<T>) -> Seq<Seq<T>>,
    mem: Memory<T>,
    h: int,
    i: int,
)
    requires
        forall|l: Launch<T>| #[trigger]
            device("rms_norm_per_head_then_rope_f32"@, l) == norm_rope_kernel(num, add_up, l),
        n_heads <= u32::MAX && head_dim <= u32::MAX && position <= u32::MAX,
        mem.args.len() == 4,
        mem.args[0].len() >= n_heads * head_dim,
        0 <= h < n_heads,
        0 <= i < head_dim,
    ensures
        device::carried_out(
            device,
            decode::rms_norm_per_head_then_rope_plan(n_heads, head_dim, position, eps_bits),
            mem,
        ).args[0][h * head_dim + i] == roped(
            num,
            head_dim as int / 2,
            position as int,
            mem.args[2],
            mem.args[3],
            |j: int|
                normed(
                    num,
                    add_up,
                    head_dim as nat,
                    (num.of_bits)(eps_bits),
                    |k: int| mem.args[0][h * head_dim + k],
                    j,
                    mem.args[1][j],
                ),
            i,
        ),
{
    let p = decode::rms_norm_per_head_then_rope_plan(n_heads, head_dim, position, eps_bits);
    device::lemma_single(device, p, mem);
    reveal_with_fuel(device::left, 8);
    let l = device::seen(p, p.dispatches[0], mem);
    lemma_groups(n_heads as nat, 32);
    assert(l.words[4] == seq![n_heads as u32, head_dim as u32, position as u32] && l.words[5]
        == seq![eps_bits]);
    assert(l.bufs[0] == mem.args[0] && l.bufs[1] == mem.args[1] && l.bufs[2] == mem.args[2]
        && l.bufs[3] == mem.args[3]);
    assert(l.bufs.len() == 6);
    let d = head_dim as int;
    lemma_row_of(h, d, i, n_heads as int);
    let x = h * head_dim + i;
    let f = |k: int| mem.args[0][x / d * d + k];
    let g = |k: int| mem.args[0][h * head_dim + k];
    assert(f =~= g);
    let eps = (num.of_bits)(eps_bits);
    let f2 = |j: int| normed(num, add_up, d as nat, eps, f, j, mem.args[1][j]);
    let g2 = |j: int| normed(num, add_up, head_dim as nat, eps, g, j, mem.args[1][j]);
    assert(f2 =~= g2);
}

/// One entry of the attention of a query of width `d` to the first `n` of the
/// cached positions: as `softmax_row::mixed`, with the scores multiplied by the
/// inverse root of `root` and the sums added up by `add_up`.
pub open spec fn cached<T>(
    num: Num<T>,
    add_up: spec_fn(nat, spec_fn(int) -> T) -> T,
    lowest: T,
    root: nat,
    d: nat,
    n: nat,
    q: spec_fn(int) -> T,
    k: spec_fn(int, int) -> T,
    v: spec_fn(int) -> T,
) -> T {
    let inv_root = (num.div)(num.one, (num.sqrt)((num.of_nat)(root)));
    let score = |p: int|
        (num.mul)(add_up(d, |i: int| (num.mul)(q(i), k(p, i))), inv_root);
    let top = softmax_row::peak(num, lowest, n as int, score);
    let e = |p: int| (num.exp)((num.sub)(score(p), top));
    let inv = (num.div)(num.one, add_up(n, e));
    num.sum(n as int, |p: int| (num.mul)((num.mul)(e(p), inv), v(p)))
}

/// What the attention to a cache does: the queries are at slot 0, the caches at
/// slots 1 and 2, the result at slot 3; the words at slot 4 are the numbers of
/// heads and of cached heads, their width and the number of positions to attend
/// to, the word at slot 5 is the number of positions of the cache, and slot 6 is
/// the factor of the scores. Threadgroup `h` works on head `h`, and keeps a
/// score for each position in its memory.
pub open spec fn attend_kernel<T>(
    num: Num<T>,
    add_up: spec_fn(nat, spec_fn(int) -> T) -> T,
    lowest: T,
    l: Launch<T>,
) -> Seq<Seq<T>> {
    let heads = l.words[4][0] as int;
    let group = heads / l.words[4][1] as int;
    let d = l.words[4][2] as int;
    let n = l.words[4][3];
    let positions = l.words[5][0] as int;
    device::writing(
        l,
        3,
        |x: int| x / d < heads && x / d < l.groups.0 && l.width == 32 && n * 4 <= l.shared,
        |x: int|
            cached(
                num,
                add_up,
                lowest,
                l.roots[6],
                d as nat,
                n as nat,
                |i: int| l.bufs[0][x / d * d + i],
                |p: int, i: int| l.bufs[1][(x / d / group * positions + p) * d + i],
                |p: int| l.bufs[2][(x / d / group * positions + p) * d + x % d],
            ),
    )
}

/// Grouped-query attention of one position gives, for query head `h`, the
/// attention to the first `kv_len` positions of cached head `h / (n_heads /
/// n_kv)`, with the scores over the root of the width.
pub proof fn law_gqa_decode_computes<T>(
    n_heads: usize,
    n_kv: usize,
    head_dim: usize,
    kv_len: usize,
    max_seq: usize,
    num: Num<T>,
    add_up: spec_fn(nat, spec_fn(int) -> T) -> T,
    lowest: T,
    device: spec_fn(Seq<char>, Launch<T>) -> Seq<Seq<T>>,
    mem: Memory<T>,
    h: int,
    c: int,
)
    requires
        forall|l: Launch<T>| #[trigger]
            device("gqa_decode_f32"@, l) == attend_kernel(num, add_up, lowest, l),
        n_heads <= u32::MAX && n_kv <= u32::MAX && head_dim <= u32::MAX && kv_len <= u32::MAX
            && max_seq <= u32::MAX,
        mem.args.len() == 4,
        mem.args[3].len() >= n_heads * head_dim,
        0 <= h < n_heads,
        0 <= c < head_dim,
    ensures
        ({
            let head = h / (n_heads as int / n_kv as int);
            device::carried_out(
                device,
                decode::gqa_decode_plan(n_heads, n_kv, head_dim, kv_len, max_seq),
                mem,
            ).args[3][h * head_dim + c] == cached(
                num,
                add_up,
                lowest,
                head_dim as nat,
                head_dim as nat,
                kv_len as nat,
                |i: int| mem.args[0][h * head_dim + i],
                |p: int, i: int| mem.args[1][(head * max_seq + p) * head_dim + i],
                |p: int| mem.args[2][(head * max_seq + p) * head_dim + c],
            )
        }),
{
    let plan = decode::gqa_decode_plan(n_heads, n_kv, head_dim, kv_len, max_seq);
    device::lemma_single(device, plan, mem);
    reveal_with_fuel(device::left, 9);
    let l = device::seen(plan, plan.dispatches[0], mem);
    lemma_groups(n_heads as nat, 32);
    assert(l.words[4] == seq![n_heads as u32, n_kv as u32, head_dim as u32, kv_len as u32]
        && l.words[5] == seq![max_seq as u32]);
    assert(l.roots[6] == head_dim);
    assert(l.bufs[0] == mem.args[0] && l.bufs[1] == mem.args[1] && l.bufs[2] == mem.args[2]
        && l.bufs[3] == mem.args[3]);
    assert(l.bufs.len() == 7);
    let d = head_dim as int;
    let positions = max_seq as int;
    lemma_row_of(h, d, c, n_heads as int);
    let x = h * head_dim + c;
    let group = n_heads as int / n_kv as int;
    let head = h / group;
    let q1 = |i: int| mem.args[0][x / d * d + i];
    let q2 = |i: int| mem.args[0][h * head_dim + i];
    assert(q1 =~= q2);
    let k1 = |p: int, i: int| mem.args[1][(x / d / group * positions + p) * d + i];
    let k2 = |p: int, i: int| mem.args[1][(head * max_seq + p) * head_dim + i];
    assert(k1 =~= k2);
    let v1 = |p: int| mem.args[2][(x / d / group * positions + p) * d + x % d];
    let v2 = |p: int| mem.args[2][(head * max_seq + p) * head_dim + c];
    assert(v1 =~= v2);
}

/// What the attention of several positions does: as for one, with the number of
/// rows as the last word at slot 4, and at slot 5 the number of positions of the
/// cache and the position of the first row. Row `b` attends to the positions up
/// to its own.
pub open spec fn attend_rows_kernel<T>(
    num: Num<T>,
    add_up: spec_fn(nat, spec_fn(int) -> T) -> T,
    lowest: T,
    l: Launch<T>,
) -> Seq<Seq<T>> {
    let heads = l.words[4][0] as int;
    let group = heads / l.words[4][1] as int;
    let d = l.words[4][2] as int;
    let rows = l.words[4][3];
    let positions = l.words[5][0] as int;
    let base = l.words[5][1] as int;
    device::writing(
        l,
        3,
        |x: int|
            x / d / heads < rows && x / d < l.groups.0 && l.width == 32 && (base + x / d / heads
                + 1) * 4 <= l.shared,
        |x: int|
            cached(
                num,
                add_up,
                lowest,
                l.roots[6],
                d as nat,
                (base + x / d / heads + 1) as nat,
                |i: int| l.bufs[0][x / d * d + i],
                |p: int, i: int| l.bufs[1][(x / d % heads / group * positions + p) * d + i],
                |p: int| l.bufs[2][(x / d % heads / group * positions + p) * d + x % d],
            ),
    )
}

/// On `b` rows, row `r` attends to the positions up to `base + r`, its own
/// among them.
pub proof fn law_gqa_decode_batched_computes<T>(
    n_heads: usize,
    n_kv: usize,
    head_dim: usize,
    base: usize,
    b: usize,
    max_seq: usize,
    num: Num<T>,
    add_up: spec_fn(nat, spec_fn(int) -> T) -> T,
    lowest: T,
    device: spec_fn(Seq<char>, Launch<T>) -> Seq<Seq<T>>,
    mem: Memory<T>,
    r: int,
    h: int,
    c: int,
)
    requires
        forall|l: Launch<T>| #[trigger]
            device("gqa_decode_batched_f32"@, l) == attend_rows_kernel(num, add_up, lowest, l),
        n_heads <= u32::MAX && n_kv <= u32::MAX && head_dim <= u32::MAX && max_seq <= u32::MAX,
        base <= u32::MAX && b <= u32::MAX,
        mem.args.len() == 4,
        mem.args[3].len() >= b * n_heads * head_dim,
        0 <= r < b,
        0 <= h < n_heads,
        0 <= c < head_dim,
    ensures
        ({
            let head = h / (n_heads as int / n_kv as int);
            let row = (r * n_heads + h) * head_dim;
            device::carried_out(
                device,
                decode::gqa_decode_batched_plan(n_heads, n_kv, head_dim, base, b, max_seq),
                mem,
            ).args[3][row + c] == cached(
                num,
                add_up,
                lowest,
                head_dim as nat,
                head_dim as nat,
                (base + r + 1) as nat,
                |i: int| mem.args[0][row + i],
                |p: int, i: int| mem.args[1][(head * max_seq + p) * head_dim + i],
                |p: int| mem.args[2][(head * max_seq + p) * head_dim + c],
            )
        }),
{
    let plan = decode::gqa_decode_batched_plan(n_heads, n_kv, head_dim, base, b, max_seq);
    device::lemma_single(device, plan, mem);
    reveal_with_fuel(device::left, 9);
    let l = device::seen(plan, plan.dispatches[0], mem);
    assert(n_heads * b >= 0) by (nonlinear_arith);
    lemma_groups((n_heads * b) as nat, 32);
    assert(l.words[4] == seq![n_heads as u32, n_kv as u32, head_dim as u32, b as u32]
        && l.words[5] == seq![max_seq as u32, base as u32]);
    assert(l.roots[6] == head_dim);
    assert(l.bufs[0] == mem.args[0] && l.bufs[1] == mem.args[1] && l.bufs[2] == mem.args[2]
        && l.bufs[3] == mem.args[3]);
    assert(l.bufs.len() == 7);
    let d = head_dim as int;
    let positions = max_seq as int;
    lemma_cache_index(r, h, c, b as int, n_heads as int, d);
    lemma_row_of(r, n_heads as int, h, b as int);
    assert(n_heads * b == b * n_heads) by (nonlinear_arith);
    let row = (r * n_heads + h) * head_dim;
    let x = row + c;
    let heads = n_heads as int;
    let group = n_heads as int / n_kv as int;
    let head = h / group;
    let q1 = |i: int| mem.args[0][x / d * d + i];
    let q2 = |i: int| mem.args[0][row + i];
    assert(q1 =~= q2);
    let k1 = |p: int, i: int| mem.args[1][(x / d % heads / group * positions + p) * d + i];
    let k2 = |p: int, i: int| mem.args[1][(head * max_seq + p) * head_dim + i];
    assert(k1 =~= k2);
    let v1 = |p: int| mem.args[2][(x / d % heads / group * positions + p) * d + x % d];
    let v2 = |p: int| mem.args[2][(head * max_seq + p) * head_dim + c];
    assert(v1 =~= v2);
}

} // verus!
