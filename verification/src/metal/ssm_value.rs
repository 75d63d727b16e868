//! What the kernels of a recurrent layer do to the buffers.
use crate::metal::decode_value;
use crate::metal::device;
use crate::metal::device::{Launch, Memory};
use crate::metal::ssm;
use crate::nn::meaning::Num;
use vstd::prelude::*;

verus! {

/// `1 / (1 + exp(-x))`.
pub open spec fn sigmoid<T>(num: Num<T>, neg: spec_fn(T) -> T, x: T) -> T {
    (num.div)(num.one, (num.add)(num.one, (num.exp)(neg(x))))
}

/// The sum of the weights of channel `c` times its last entries: those of the
/// history, oldest first, and the new one.
pub open spec fn convolved<T>(
    num: Num<T>,
    size: int,
    channels: int,
    x: Seq<T>,
    w: Seq<T>,
    history: Seq<T>,
    c: int,
) -> T {
    (num.add)(
        num.sum(
            size - 1,
            |t: int| (num.mul)(w[c * size + t], history[t * channels + c]),
        ),
        (num.mul)(w[c * size + (size - 1)], x[c]),
    )
}

/// What the convolution step does: the new entries are at slot 0, the weights
/// of `[channels, size]` at slot 1, the history of `[size - 1, channels]` at
/// slot 2, the result at slot 3; the words at slot 4 are the size and the number
/// of channels. The history moves up by one entry.
pub open spec fn conv_kernel<T>(num: Num<T>, neg: spec_fn(T) -> T, l: Launch<T>) -> Seq<Seq<T>> {
    let size = l.words[4][0] as int;
    let n = l.words[4][1] as int;
    let sum = |c: int| convolved(num, size, n, l.bufs[0], l.bufs[1], l.bufs[2], c);
    l.bufs.update(
        2,
        Seq::new(
            l.bufs[2].len(),
            |x: int|
                if x % n < l.threads.0 && x / n < size - 2 {
                    l.bufs[2][x + n]
                } else if x % n < l.threads.0 && x / n == size - 2 {
                    l.bufs[0][x % n]
                } else {
                    l.bufs[2][x]
                },
        ),
    ).update(
        3,
        Seq::new(
            l.bufs[3].len(),
            |x: int|
                if x < n && x < l.threads.0 {
                    (num.mul)(sum(x), sigmoid(num, neg, sum(x)))
                } else {
                    l.bufs[3][x]
                },
        ),
    )
}

/// A step of the depth-wise convolution gives `silu` of the sum over the window
/// at every channel, and the history afterwards holds the entries one later,
/// with the new entry last.
pub proof fn law_conv_step_computes<T>(
    size: usize,
    channels: usize,
    num: Num<T>,
    neg: spec_fn(T) -> T,
    device: spec_fn(Seq<char>, Launch<T>) -> Seq<Seq<T>>,
    mem: Memory<T>,
    c: int,
    t: int,
)
    requires
        forall|l: Launch<T>| #[trigger]
            device("ssm_conv1d_step_f32"@, l) == conv_kernel(num, neg, l),
        size <= u32::MAX && channels <= u32::MAX,
        mem.args.len() == 4,
        mem.args[2].len() >= (size - 1) * channels,
        mem.args[3].len() >= channels,
        0 <= c < channels,
        0 <= t < size - 1,
    ensures
        ({
            let after = device::carried_out(
                device,
                ssm::ssm_conv1d_step_plan(size, channels),
                mem,
            );
            let sum = convolved(
                num,
                size as int,
                channels as int,
                mem.args[0],
                mem.args[1],
                mem.args[2],
                c,
            );
            &&& after.args[3][c] == (num.mul)(sum, sigmoid(num, neg, sum))
            &&& after.args[2][t * channels + c] == if t + 1 < size - 1 {
                mem.args[2][(t + 1) * channels + c]
            } else {
                mem.args[0][c]
            }
        }),
{
    let p = ssm::ssm_conv1d_step_plan(size, channels);
    device::lemma_single(device, p, mem);
    reveal_with_fuel(device::left, 7);
    let l = device::seen(p, p.dispatches[0], mem);
    assert(l.words[4] == seq![size as u32, channels as u32]);
    assert(l.bufs[0] == mem.args[0] && l.bufs[1] == mem.args[1] && l.bufs[2] == mem.args[2]
        && l.bufs[3] == mem.args[3]);
    assert(l.bufs.len() == 5);
    decode_value::lemma_row_of(t, channels as int, c, size - 1);
    assert((t + 1) * channels + c == t * channels + c + channels) by (nonlinear_arith);
}

/// Entry `i` of a row over the root of its sum of squares.
pub open spec fn unit<T>(
    num: Num<T>,
    add_up: spec_fn(nat, spec_fn(int) -> T) -> T,
    d: nat,
    eps: T,
    row: spec_fn(int) -> T,
    i: int,
) -> T {
    let sum = add_up(d, |l: int| num.square(row(l)));
    (num.mul)(row(i), (num.div)(num.one, (num.sqrt)((num.add)(sum, eps))))
}

/// What the scaling to unit length does, in place at slot 0; the words at slot 1
/// are the number of heads and their width, and the epsilon is at slot 2.
/// Threadgroup `h` works on head `h`.
pub open spec fn unit_kernel<T>(
    num: Num<T>,
    add_up: spec_fn(nat, spec_fn(int) -> T) -> T,
    l: Launch<T>,
) -> Seq<Seq<T>> {
    let d = l.words[1][1] as int;
    device::writing(
        l,
        0,
        |x: int| x / d < l.words[1][0] && x / d < l.groups.0 && l.width == 32,
        |x: int|
            unit(
                num,
                add_up,
                d as nat,
                (num.of_bits)(l.words[2][0]),
                |i: int| l.bufs[0][x / d * d + i],
                x % d,
            ),
    )
}

/// The scaling of each head gives `x / sqrt(sum(x^2) + eps)`.
pub proof fn law_l2_norm_computes<T>(
    n_heads: usize,
    head_dim: usize,
    eps_bits: u32,
    num: Num<T>,
    add_up: spec_fn(nat, spec_fn(int) -> T) -> T,
    device: spec_fn(Seq<char>, Launch<T>) -> Seq<Seq<T>>,
    mem: Memory<T>,
    h: int,
    i: int,
)
    requires
        forall|l: Launch<T>| #[trigger]
            device("l2_norm_per_head_f32"@, l) == unit_kernel(num, add_up, l),
        n_heads <= u32::MAX && head_dim <= u32::MAX,
        mem.args.len() == 1,
        mem.args[0].len() >= n_heads * head_dim,
        0 <= h < n_heads,
        0 <= i < head_dim,
    ensures
        device::carried_out(
            device,
            ssm::l2_norm_per_head_plan(n_heads, head_dim, eps_bits),
            mem,
        ).args[0][h * head_dim + i] == unit(
            num,
            add_up,
            head_dim as nat,
            (num.of_bits)(eps_bits),
            |l: int| mem.args[0][h * head_dim + l],
            i,
        ),
{
    let p = ssm::l2_norm_per_head_plan(n_heads, head_dim, eps_bits);
    device::lemma_single(device, p, mem);
    reveal_with_fuel(device::left, 5);
    let l = device::seen(p, p.dispatches[0], mem);
    decode_value::lemma_groups(n_heads as nat, 32);
    assert(l.words[1] == seq![n_heads as u32, head_dim as u32] && l.words[2] == seq![eps_bits]);
    assert(l.bufs[0] == mem.args[0]);
    assert(l.bufs.len() == 3);
    let d = head_dim as int;
    decode_value::lemma_row_of(h, d, i, n_heads as int);
    let x = h * head_dim + i;
    let f = |j: int| mem.args[0][x / d * d + j];
    let g = |j: int| mem.args[0][h * head_dim + j];
    assert(f =~= g);
}

/// The decayed state of row `r` of a head less its prediction for the value,
/// times the strength: `beta * (v - sum over c of decay * state[c] * k[c])`.
pub open spec fn delta_of<T>(
    num: Num<T>,
    add_up: spec_fn(nat, spec_fn(int) -> T) -> T,
    d: nat,
    decay: T,
    beta: T,
    v: T,
    state: spec_fn(int) -> T,
    k: spec_fn(int) -> T,
) -> T {
    let seen = add_up(d, |c: int| (num.mul)((num.mul)(decay, state(c)), k(c)));
    (num.mul)(beta, (num.sub)(v, seen))
}

/// The new state: `decay * state + delta * k`.
pub open spec fn next_state<T>(num: Num<T>, decay: T, delta: T, s: T, k: T) -> T {
    (num.add)((num.mul)(decay, s), (num.mul)(delta, k))
}

/// The read-out of the new state: the sum of `state[c] * q[c] / sqrt(d)`.
pub open spec fn read_out<T>(
    num: Num<T>,
    add_up: spec_fn(nat, spec_fn(int) -> T) -> T,
    d: nat,
    state: spec_fn(int) -> T,
    q: spec_fn(int) -> T,
) -> T {
    let scale = (num.div)(num.one, (num.sqrt)((num.of_nat)(d)));
    add_up(d, |c: int| (num.mul)((num.mul)(state(c), q(c)), scale))
}

/// Entry `c` of row `r` of the new state of head `h`.
pub open spec fn delta_state<T>(
    num: Num<T>,
    add_up: spec_fn(nat, spec_fn(int) -> T) -> T,
    l: Launch<T>,
    d: int,
    key_heads: int,
    h: int,
    r: int,
    c: int,
) -> T {
    let base = h % key_heads * d;
    let decay = (num.exp)(l.bufs[3][h]);
    let delta = delta_of(
        num,
        add_up,
        d as nat,
        decay,
        l.bufs[4][h],
        l.bufs[2][h * d + r],
        |j: int| l.bufs[5][(h * d + r) * d + j],
        |j: int| l.bufs[1][base + j],
    );
    next_state(num, decay, delta, l.bufs[5][(h * d + r) * d + c], l.bufs[1][base + c])
}

/// What the recurrent step does: queries, keys, values, decays and strengths are
/// at slots 0 to 4, the state of `[heads, width, width]` at slot 5, the result at
/// slot 6; the words at slot 7 are the number of value heads, their width and
/// the number of key heads. Threadgroup `[r, h]` works on row `r` of head `h`,
/// which reads key head `h` modulo the number of key heads.
pub open spec fn delta_kernel<T>(
    num: Num<T>,
    add_up: spec_fn(nat, spec_fn(int) -> T) -> T,
    l: Launch<T>,
) -> Seq<Seq<T>> {
    let heads = l.words[7][0] as int;
    let d = l.words[7][1] as int;
    let key_heads = l.words[7][2] as int;
    let works = |h: int, r: int|
        h < heads && h < l.groups.1 && r < l.groups.0 && l.width == 32;
    l.bufs.update(
        5,
        Seq::new(
            l.bufs[5].len(),
            |x: int|
                if works(x / d / d, x / d % d) {
                    delta_state(num, add_up, l, d, key_heads, x / d / d, x / d % d, x % d)
                } else {
                    l.bufs[5][x]
                },
        ),
    ).update(
        6,
        Seq::new(
            l.bufs[6].len(),
            |x: int|
                if works(x / d, x % d) {
                    read_out(
                        num,
                        add_up,
                        d as nat,
                        |c: int| delta_state(num, add_up, l, d, key_heads, x / d, x % d, c),
                        |c: int| l.bufs[0][x / d % key_heads * d + c],
                    )
                } else {
                    l.bufs[6][x]
                },
        ),
    )
}

/// A recurrent step decays the state of each value head by the exponential of
/// its gate, adds the outer product of the corrected value and the key, and
/// reads the new state out with the query over the root of the width. Value head
/// `h` reads query and key head `h % n_k_heads`.
#[verifier::rlimit(40)]
#[verifier::spinoff_prover]
pub proof fn law_delta_net_step_computes<T>(
    n_v_heads: usize,
    head_dim: usize,
    n_k_heads: usize,
    num: Num<T>,
    add_up: spec_fn(nat, spec_fn(int) -> T) -> T,
    device: spec_fn(Seq<char>, Launch<T>) -> Seq<Seq<T>>,
    mem: Memory<T>,
    h: int,
    r: int,
    c: int,
)
    requires
        forall|l: Launch<T>| #[trigger]
            device("delta_net_step_f32"@, l) == delta_kernel(num, add_up, l),
        n_v_heads <= u32::MAX && head_dim <= u32::MAX && 0 < n_k_heads <= u32::MAX,
        mem.args.len() == 7,
        mem.args[5].len() >= n_v_heads * head_dim * head_dim,
        mem.args[6].len() >= n_v_heads * head_dim,
        0 <= h < n_v_heads,
        0 <= r < head_dim,
        0 <= c < head_dim,
    ensures
        ({
            let after = device::carried_out(
                device,
                ssm::delta_net_step_plan(n_v_heads, head_dim, n_k_heads),
                mem,
            );
            let base = h % (n_k_heads as int) * head_dim;
            let decay = (num.exp)(mem.args[3][h]);
            let delta = delta_of(
                num,
                add_up,
                head_dim as nat,
                decay,
                mem.args[4][h],
                mem.args[2][h * head_dim + r],
                |j: int| mem.args[5][(h * head_dim + r) * head_dim + j],
                |j: int| mem.args[1][base + j],
            );
            let state = |j: int|
                next_state(
                    num,
                    decay,
                    delta,
                    mem.args[5][(h * head_dim + r) * head_dim + j],
                    mem.args[1][base + j],
                );
            &&& after.args[5][(h * head_dim + r) * head_dim + c] == state(c)
            &&& after.args[6][h * head_dim + r] == read_out(
                num,
                add_up,
                head_dim as nat,
                state,
                |j: int| mem.args[0][base + j],
            )
        }),
{
    let p = ssm::delta_net_step_plan(n_v_heads, head_dim, n_k_heads);
    device::lemma_single(device, p, mem);
    reveal_with_fuel(device::left, 10);
    let l = device::seen(p, p.dispatches[0], mem);
    decode_value::lemma_groups(head_dim as nat, 32);
    decode_value::lemma_groups(n_v_heads as nat, 1);
    assert(l.words[7] == seq![
        n_v_heads as u32,
        head_dim as u32,
        n_k_heads as u32,
        (n_v_heads / n_k_heads) as u32,
    ]);
    assert(l.bufs[0] == mem.args[0] && l.bufs[1] == mem.args[1] && l.bufs[2] == mem.args[2]
        && l.bufs[3] == mem.args[3] && l.bufs[4] == mem.args[4] && l.bufs[5] == mem.args[5]
        && l.bufs[6] == mem.args[6]);
    assert(l.bufs.len() == 8);
    let d = head_dim as int;
    decode_value::lemma_cache_index(h, r, c, n_v_heads as int, d, d);
    decode_value::lemma_row_of(h, d, r, n_v_heads as int);
    let kh = n_k_heads as int;
    let base = h % kh * head_dim;
    let s1 = |j: int| mem.args[5][(h * d + r) * d + j];
    let s2 = |j: int| mem.args[5][(h * head_dim + r) * head_dim + j];
    assert(s1 =~= s2);
    let k1 = |j: int| mem.args[1][h % kh * d + j];
    let k2 = |j: int| mem.args[1][base + j];
    assert(k1 =~= k2);
    let decay = (num.exp)(mem.args[3][h]);
    let delta = delta_of(
        num,
        add_up,
        head_dim as nat,
        decay,
        mem.args[4][h],
        mem.args[2][h * head_dim + r],
        s2,
        k2,
    );
    let st1 = |j: int|
        next_state(num, decay, delta, mem.args[5][(h * d + r) * d + j], mem.args[1][h % kh * d + j]);
    let st2 = |j: int|
        next_state(
            num,
            decay,
            delta,
            mem.args[5][(h * head_dim + r) * head_dim + j],
            mem.args[1][base + j],
        );
    assert(st1 =~= st2);
    let q1 = |j: int| mem.args[0][h % kh * d + j];
    let q2 = |j: int| mem.args[0][base + j];
    assert(q1 =~= q2);
    let outs = delta_kernel(num, add_up, l);
    let x = h * head_dim + r;
    let y = x * head_dim + c;
    assert(y / d / d == h && y / d % d == r && y % d == c);
    assert(x / d == h && x % d == r);
    let in_kernel = |j: int| delta_state(num, add_up, l, d, kh, x / d, x % d, j);
    assert forall|j: int| #[trigger] in_kernel(j) == st2(j) by {
        assert(st1(j) == st2(j));
        assert(h % kh * d == base);
    }
    assert(in_kernel =~= st2);
    assert(outs[5][y] == in_kernel(c));
    let q3 = |j: int| l.bufs[0][x / d % kh * d + j];
    assert(q3 =~= q2);
    assert(outs[6][x] == read_out(num, add_up, d as nat, in_kernel, q3));
}

/// What the gated normalisation does, in place at slot 0, with the scale at slot
/// 1 and the gating factor at slot 2; the words at slot 3 are the number of heads and
/// their width, and the epsilon is at slot 4.
pub open spec fn gated_norm_kernel<T>(
    num: Num<T>,
    neg: spec_fn(T) -> T,
    add_up: spec_fn(nat, spec_fn(int) -> T) -> T,
    l: Launch<T>,
) -> Seq<Seq<T>> {
    let d = l.words[3][1] as int;
    device::writing(
        l,
        0,
        |x: int| x / d < l.words[3][0] && x / d < l.groups.0 && l.width == 32,
        |x: int|
            (num.mul)(
                decode_value::normed(
                    num,
                    add_up,
                    d as nat,
                    (num.of_bits)(l.words[4][0]),
                    |i: int| l.bufs[0][x / d * d + i],
                    x % d,
                    l.bufs[1][x % d],
                ),
                silu(num, neg, l.bufs[2][x]),
            ),
    )
}

/// `x / (1 + exp(-x))`.
pub open spec fn silu<T>(num: Num<T>, neg: spec_fn(T) -> T, x: T) -> T {
    (num.div)(x, (num.add)(num.one, (num.exp)(neg(x))))
}

/// The gated normalisation gives, at each entry of each head, the normalised
/// entry times `silu` of the gating entry.
pub proof fn law_gated_norm_computes<T>(
    n_heads: usize,
    head_dim: usize,
    eps_bits: u32,
    num: Num<T>,
    neg: spec_fn(T) -> T,
    add_up: spec_fn(nat, spec_fn(int) -> T) -> T,
    device: spec_fn(Seq<char>, Launch<T>) -> Seq<Seq<T>>,
    mem: Memory<T>,
    h: int,
    i: int,
)
    requires
        forall|l: Launch<T>| #[trigger]
            device("rms_norm_per_head_gated_f32"@, l) == gated_norm_kernel(num, neg, add_up, l),
        n_heads <= u32::MAX && head_dim <= u32::MAX,
        mem.args.len() == 3,
        mem.args[0].len() >= n_heads * head_dim,
        0 <= h < n_heads,
        0 <= i < head_dim,
    ensures
        device::carried_out(
            device,
            ssm::rms_norm_per_head_gated_plan(n_heads, head_dim, eps_bits),
            mem,
        ).args[0][h * head_dim + i] == (num.mul)(
            decode_value::normed(
                num,
                add_up,
                head_dim as nat,
                (num.of_bits)(eps_bits),
                |l: int| mem.args[0][h * head_dim + l],
                i,
                mem.args[1][i],
            ),
            silu(num, neg, mem.args[2][h * head_dim + i]),
        ),
{
    let p = ssm::rms_norm_per_head_gated_plan(n_heads, head_dim, eps_bits);
    device::lemma_single(device, p, mem);
    reveal_with_fuel(device::left, 7);
    let l = device::seen(p, p.dispatches[0], mem);
    decode_value::lemma_groups(n_heads as nat, 32);
    assert(l.words[3] == seq![n_heads as u32, head_dim as u32] && l.words[4] == seq![eps_bits]);
    assert(l.bufs[0] == mem.args[0] && l.bufs[1] == mem.args[1] && l.bufs[2] == mem.args[2]);
    assert(l.bufs.len() == 5);
    let d = head_dim as int;
    decode_value::lemma_row_of(h, d, i, n_heads as int);
    let x = h * head_dim + i;
    let f = |j: int| mem.args[0][x / d * d + j];
    let g = |j: int| mem.args[0][h * head_dim + j];
    assert(f =~= g);
}

/// What the gates do: the raw decays and strengths are at slots 0 and 1, the
/// offsets of the decays at slot 2, their factors at slot 3; the decays go to
/// slot 4, the strengths to slot 5, and the word at slot 6 is their number.
/// `softplus` is the smooth form of `max(x, 0)`.
pub open spec fn gate_kernel<T>(
    num: Num<T>,
    neg: spec_fn(T) -> T,
    softplus: spec_fn(T) -> T,
    l: Launch<T>,
) -> Seq<Seq<T>> {
    let done = |x: int| x < l.words[6][0] && x < l.threads.0;
    l.bufs.update(
        4,
        Seq::new(
            l.bufs[4].len(),
            |x: int|
                if done(x) {
                    (num.mul)(softplus((num.add)(l.bufs[0][x], l.bufs[2][x])), l.bufs[3][x])
                } else {
                    l.bufs[4][x]
                },
        ),
    ).update(
        5,
        Seq::new(
            l.bufs[5].len(),
            |x: int|
                if done(x) {
                    sigmoid(num, neg, l.bufs[1][x])
                } else {
                    l.bufs[5][x]
                },
        ),
    )
}

/// The gates give `softplus(alpha + dt) * a` as the decay and `sigmoid(beta)` as
/// the strength of each head.
pub proof fn law_gate_computes<T>(
    n: usize,
    num: Num<T>,
    neg: spec_fn(T) -> T,
    softplus: spec_fn(T) -> T,
    device: spec_fn(Seq<char>, Launch<T>) -> Seq<Seq<T>>,
    mem: Memory<T>,
    x: int,
)
    requires
        forall|l: Launch<T>| #[trigger]
            device("ssm_apply_gate_f32"@, l) == gate_kernel(num, neg, softplus, l),
        n <= u32::MAX,
        mem.args.len() == 6,
        mem.args[4].len() >= n,
        mem.args[5].len() >= n,
        0 <= x < n,
    ensures
        ({
            let after = device::carried_out(device, ssm::ssm_apply_gate_plan(n), mem);
            &&& after.args[4][x] == (num.mul)(
                softplus((num.add)(mem.args[0][x], mem.args[2][x])),
                mem.args[3][x],
            )
            &&& after.args[5][x] == sigmoid(num, neg, mem.args[1][x])
        }),
{
    let p = ssm::ssm_apply_gate_plan(n);
    device::lemma_single(device, p, mem);
    reveal_with_fuel(device::left, 9);
    let l = device::seen(p, p.dispatches[0], mem);
    assert(l.words[6] == seq![n as u32]);
    assert(l.bufs[0] == mem.args[0] && l.bufs[1] == mem.args[1] && l.bufs[2] == mem.args[2]
        && l.bufs[3] == mem.args[3] && l.bufs[4] == mem.args[4] && l.bufs[5] == mem.args[5]);
    assert(l.bufs.len() == 7);
}

/// What the split does: rows of twice the width are at slot 0; their first halves
/// go to slot 1, their second halves to slot 2; the words at slot 3 are the
/// number of rows and the width. Each thread takes a column and a row.
pub open spec fn split_kernel<T>(l: Launch<T>) -> Seq<Seq<T>> {
    let rows = l.words[3][0] as int;
    let d = l.words[3][1] as int;
    let half = |s: int, shift: int|
        Seq::new(
            l.bufs[s].len(),
            |x: int|
                if x / d < rows && x / d < l.threads.1 && x % d < l.threads.0 {
                    l.bufs[0][x / d * 2 * d + shift + x % d]
                } else {
                    l.bufs[s][x]
                },
        );
    l.bufs.update(1, half(1, 0)).update(2, half(2, d))
}

/// The split gives the first half of row `h` as query and the second half as
/// gate.
pub proof fn law_split_computes<T>(
    n_q: usize,
    head_dim: usize,
    device: spec_fn(Seq<char>, Launch<T>) -> Seq<Seq<T>>,
    mem: Memory<T>,
    h: int,
    i: int,
)
    requires
        forall|l: Launch<T>| #[trigger] device("split_qg_per_head_f32"@, l) == split_kernel(l),
        n_q <= u32::MAX && head_dim <= u32::MAX,
        mem.args.len() == 3,
        mem.args[1].len() >= n_q * head_dim,
        mem.args[2].len() >= n_q * head_dim,
        0 <= h < n_q,
        0 <= i < head_dim,
    ensures
        ({
            let after = device::carried_out(
                device,
                ssm::split_qg_per_head_plan(n_q, head_dim),
                mem,
            );
            &&& after.args[1][h * head_dim + i] == mem.args[0][h * 2 * head_dim + i]
            &&& after.args[2][h * head_dim + i] == mem.args[0][h * 2 * head_dim + head_dim + i]
        }),
{
    let p = ssm::split_qg_per_head_plan(n_q, head_dim);
    device::lemma_single(device, p, mem);
    reveal_with_fuel(device::left, 6);
    let l = device::seen(p, p.dispatches[0], mem);
    assert(l.words[3] == seq![n_q as u32, head_dim as u32]);
    assert(l.bufs[0] == mem.args[0] && l.bufs[1] == mem.args[1] && l.bufs[2] == mem.args[2]);
    assert(l.bufs.len() == 4);
    decode_value::lemma_row_of(h, head_dim as int, i, n_q as int);
}

/// What the weighted addition does, in place at slot 0, with the other term at
/// slot 1, the bits of the weight at slot 2 and the number of elements at slot 3.
pub open spec fn weighted_kernel<T>(num: Num<T>, l: Launch<T>) -> Seq<Seq<T>> {
    device::writing(
        l,
        0,
        |x: int| x < l.words[3][0] && x < l.threads.0,
        |x: int|
            (num.add)(
                l.bufs[0][x],
                (num.mul)((num.of_bits)(l.words[2][0]), l.bufs[1][x]),
            ),
    )
}

/// What zeroing does to slot 0; the word at slot 1 is the number of elements.
pub open spec fn zero_kernel<T>(num: Num<T>, l: Launch<T>) -> Seq<Seq<T>> {
    device::writing(l, 0, |x: int| x < l.words[1][0] && x < l.threads.0, |x: int| num.zero)
}

/// What the gating in place at slot 0 does, with the gating factor at slot 1
/// and the number of elements at slot 2.
pub open spec fn sigmoid_mul_kernel<T>(
    num: Num<T>,
    neg: spec_fn(T) -> T,
    l: Launch<T>,
) -> Seq<Seq<T>> {
    device::writing(
        l,
        0,
        |x: int| x < l.words[2][0] && x < l.threads.0,
        |x: int| (num.mul)(l.bufs[0][x], sigmoid(num, neg, l.bufs[1][x])),
    )
}

/// The weighted addition gives `acc + w * src`, at every one of the `n` elements
/// and at no other.
pub proof fn law_weighted_add_computes<T>(
    weight_bits: u32,
    n: usize,
    num: Num<T>,
    device: spec_fn(Seq<char>, Launch<T>) -> Seq<Seq<T>>,
    mem: Memory<T>,
    x: int,
)
    requires
        forall|l: Launch<T>| #[trigger]
            device("weighted_add_inplace_f32"@, l) == weighted_kernel(num, l),
        n <= u32::MAX,
        mem.args.len() == 2,
        0 <= x < mem.args[0].len(),
    ensures
        device::carried_out(device, ssm::weighted_add_inplace_plan(weight_bits, n), mem).args[0][x]
            == if x < n {
            (num.add)(
                mem.args[0][x],
                (num.mul)((num.of_bits)(weight_bits), mem.args[1][x]),
            )
        } else {
            mem.args[0][x]
        },
{
    let p = ssm::weighted_add_inplace_plan(weight_bits, n);
    device::lemma_single(device, p, mem);
    reveal_with_fuel(device::left, 6);
    let l = device::seen(p, p.dispatches[0], mem);
    assert(l.words[2] == seq![weight_bits] && l.words[3] == seq![n as u32]);
    assert(l.bufs[0] == mem.args[0] && l.bufs[1] == mem.args[1]);
    assert(l.bufs.len() == 4);
}

/// Zeroing gives zero at the first `n` elements and leaves the others.
pub proof fn law_zero_computes<T>(
    n: usize,
    num: Num<T>,
    device: spec_fn(Seq<char>, Launch<T>) -> Seq<Seq<T>>,
    mem: Memory<T>,
    x: int,
)
    requires
        forall|l: Launch<T>| #[trigger] device("zero_f32"@, l) == zero_kernel(num, l),
        n <= u32::MAX,
        mem.args.len() == 1,
        0 <= x < mem.args[0].len(),
    ensures
        device::carried_out(device, ssm::zero_plan(n), mem).args[0][x] == if x < n {
            num.zero
        } else {
            mem.args[0][x]
        },
{
    let p = ssm::zero_plan(n);
    device::lemma_single(device, p, mem);
    reveal_with_fuel(device::left, 4);
    let l = device::seen(p, p.dispatches[0], mem);
    assert(l.words[1] == seq![n as u32]);
    assert(l.bufs[0] == mem.args[0]);
    assert(l.bufs.len() == 2);
}

/// The gating in place gives `x * sigmoid(gate)` at the first `n` elements and
/// leaves the others.
pub proof fn law_sigmoid_mul_computes<T>(
    n: usize,
    num: Num<T>,
    neg: spec_fn(T) -> T,
    device: spec_fn(Seq<char>, Launch<T>) -> Seq<Seq<T>>,
    mem: Memory<T>,
    x: int,
)
    requires
        forall|l: Launch<T>| #[trigger]
            device("sigmoid_mul_inplace_f32"@, l) == sigmoid_mul_kernel(num, neg, l),
        n <= u32::MAX,
        mem.args.len() == 2,
        0 <= x < mem.args[0].len(),
    ensures
        device::carried_out(device, ssm::sigmoid_mul_inplace_plan(n), mem).args[0][x] == if x < n {
            (num.mul)(mem.args[0][x], sigmoid(num, neg, mem.args[1][x]))
        } else {
            mem.args[0][x]
        },
{
    let p = ssm::sigmoid_mul_inplace_plan(n);
    device::lemma_single(device, p, mem);
    reveal_with_fuel(device::left, 5);
    let l = device::seen(p, p.dispatches[0], mem);
    assert(l.words[2] == seq![n as u32]);
    assert(l.bufs[0] == mem.args[0] && l.bufs[1] == mem.args[1]);
    assert(l.bufs.len() == 3);
}

} // verus!
