//! Reductions, bias addition and transposition.
use crate::metal::device;
use crate::metal::device::{Launch, Memory};
use crate::metal::dispatch;
use crate::metal::dispatch::{Dispatch, DispatchModel, Plan, PlanModel};
use crate::metal::error::{shape_mismatch, ErrorModel, MetalError};
use crate::nn::meaning;
use crate::nn::meaning::Num;
use crate::text;
use crate::text::Text;
use vstd::prelude::*;

verus! {

/// Reduction codes.
pub const REDUCE_KIND_SUM: u32 = 0;

pub const REDUCE_KIND_MEAN: u32 = 1;

fn params(n: usize, kind: u32) -> (r: Vec<u32>)
    ensures
        r@ == seq![n as u32, kind],
{
    let mut r = dispatch::words1(n);
    r.push(kind);
    assert(r@ =~= seq![n as u32, kind]);
    r
}

/// Number of partial results of a two-stage reduction of `n` elements.
pub open spec fn partials(n: nat) -> nat {
    dispatch::ceil_div(n, 256)
}

fn count_partials(n: usize) -> (r: u64)
    ensures
        r == partials(n as nat),
        r <= n,
        r * 4 <= usize::MAX,
{
    proof {
        dispatch::law_ceil_div(n as nat, 256);
    }
    dispatch::div_ceil(n as u64, 256)
}

/// A two-stage reduction: groups of 256 elements to partial results, then
/// those to one.
pub open spec fn reduce_plan(n: nat, kind: u32, first: Seq<char>, second: Seq<char>) -> PlanModel {
    PlanModel::empty().buffer(partials(n) * 4).uniform(8, seq![n as u32, kind]).buffer(4).uniform(
        4,
        seq![partials(n) as u32],
    ).launch(
        DispatchModel::kernel(first, "reduce_partial_f32"@).temp(1).arg(0).temp(0).threads(
            partials(n) * 256,
            1,
            256,
        ),
    ).launch(
        DispatchModel::kernel(second, "reduce_finalise_f32"@).temp(1).temp(0).temp(2).temp(
            3,
        ).threads(1, 1, 1),
    ).returning(2)
}

fn reduce_full(n: usize, kind: u32, first: &'static str, second: &'static str) -> (r: Plan)
    requires
        partials(n as nat) * 256 <= u64::MAX,
    ensures
        r@ == reduce_plan(n as nat, kind, first@, second@),
{
    let n_partials: u64 = count_partials(n);
    let d1 = Dispatch::kernel(first, "reduce_partial_f32").temp(1).arg(0).temp(0).threads(
        n_partials * 256,
        1,
        256,
    );
    let d2 = Dispatch::kernel(second, "reduce_finalise_f32").temp(1).temp(0).temp(2).temp(
        3,
    ).threads(1, 1, 1);
    Plan::empty().buffer(n_partials as usize * 4).uniform(8, params(n, kind)).buffer(4).uniform(
        4,
        dispatch::words1(n_partials as usize),
    ).launch(d1).launch(d2).returning(2)
}

/// The plan of a sum of `n` elements.
pub open spec fn total_plan(n: usize) -> PlanModel {
    reduce_plan(n as nat, REDUCE_KIND_SUM, "sum_partial"@, "sum_final"@)
}

/// The plan of a mean of `n` elements.
pub open spec fn average_plan(n: usize) -> PlanModel {
    reduce_plan(n as nat, REDUCE_KIND_MEAN, "mean_partial"@, "mean_final"@)
}

/// Sum of `n` elements.
pub fn sum_f32(n: usize) -> (r: Result<Plan, MetalError>)
    requires
        partials(n as nat) * 256 <= u64::MAX,
    ensures
        dispatch::planned(r) == Ok::<PlanModel, ErrorModel>(total_plan(n)),
{
    Ok(reduce_full(n, REDUCE_KIND_SUM, "sum_partial", "sum_final"))
}

/// Mean of `n` elements.
pub fn mean_f32(n: usize) -> (r: Result<Plan, MetalError>)
    requires
        partials(n as nat) * 256 <= u64::MAX,
    ensures
        dispatch::planned(r) == Ok::<PlanModel, ErrorModel>(average_plan(n)),
{
    Ok(reduce_full(n, REDUCE_KIND_MEAN, "mean_partial", "mean_final"))
}

/// The plan of a sum or mean of squared differences.
pub open spec fn mse_plan(n: usize, kind: u32) -> PlanModel {
    PlanModel::empty().buffer(partials(n as nat) * 4).buffer(4).launch(
        DispatchModel::kernel("mse_reduce_partial"@, "mse_reduce_partial_f32"@).words(
            seq![n as u32, kind],
        ).arg(0).arg(1).temp(0).threads(partials(n as nat) * 256, 1, 256),
    ).launch(
        DispatchModel::kernel("mse_reduce_final"@, "reduce_finalise_f32"@).words(
            seq![n as u32, kind],
        ).temp(0).temp(1).words(seq![partials(n as nat) as u32]).threads(1, 1, 1),
    ).returning(1)
}

/// Sum or mean of the squared differences of two buffers of `n` elements.
pub fn mse_reduce_f32(n: usize, kind: u32) -> (r: Result<Plan, MetalError>)
    requires
        partials(n as nat) * 256 <= u64::MAX,
    ensures
        dispatch::planned(r) == Ok::<PlanModel, ErrorModel>(mse_plan(n, kind)),
{
    let n_partials: u64 = count_partials(n);
    let d1 = Dispatch::kernel("mse_reduce_partial", "mse_reduce_partial_f32").words(
        params(n, kind),
    ).arg(0).arg(1).temp(0).threads(n_partials * 256, 1, 256);
    let d2 = Dispatch::kernel("mse_reduce_final", "reduce_finalise_f32").words(
        params(n, kind),
    ).temp(0).temp(1).words(dispatch::words1(n_partials as usize)).threads(1, 1, 1);
    Ok(Plan::empty().buffer(n_partials as usize * 4).buffer(4).launch(d1).launch(d2).returning(1))
}

/// The plan of a bias addition.
pub open spec fn bias_plan(b_dim: usize, n_dim: usize) -> PlanModel {
    PlanModel::empty().buffer((b_dim * n_dim * 4) as nat).uniform(
        8,
        seq![b_dim as u32, n_dim as u32],
    ).launch(
        DispatchModel::kernel("add_bias_f32"@, "add_bias_f32"@).temp(1).arg(0).arg(1).temp(
            0,
        ).threads((b_dim * n_dim) as nat, 1, 256).clamped(),
    ).returning(0)
}

/// `out[b, j] = x[b, j] + bias[j]` on a `[b_dim, n_dim]` buffer.
pub fn add_bias_f32(b_dim: usize, n_dim: usize) -> (r: Result<Plan, MetalError>)
    requires
        b_dim * n_dim <= usize::MAX,
        b_dim * n_dim * 4 <= usize::MAX,
    ensures
        dispatch::planned(r) == Ok::<PlanModel, ErrorModel>(bias_plan(b_dim, n_dim)),
{
    let total: usize = b_dim * n_dim;
    let d = Dispatch::kernel("add_bias_f32", "add_bias_f32").temp(1).arg(0).arg(1).temp(0).threads(
        total as u64,
        1,
        256,
    ).clamped();
    Ok(
        Plan::empty().buffer(total * 4).uniform(8, dispatch::words2(b_dim, n_dim)).launch(
            d,
        ).returning(0),
    )
}

/// Number of results when one axis of a `[d0, d1]` buffer is reduced.
pub open spec fn kept(d0: nat, d1: nat, axis: nat) -> nat {
    if axis == 0 { d1 } else { d0 }
}

/// The outcome of reducing one axis of a `[d0, d1]` buffer.
pub open spec fn reduce_dim_outcome(
    d0: usize,
    d1: usize,
    axis: usize,
    kind: u32,
    name: Seq<char>,
) -> Result<PlanModel, ErrorModel> {
    if axis > 1 {
        Err(
            ErrorModel::ShapeMismatch(
                "reduce_dim_2d: axis "@ + text::decimal(axis as nat)
                    + " out of range for 2D input"@,
            ),
        )
    } else {
        let n = kept(d0 as nat, d1 as nat, axis as nat);
        Ok(
            PlanModel::empty().buffer(n * 4).uniform(
                16,
                seq![d0 as u32, d1 as u32, axis as u32, kind],
            ).launch(
                DispatchModel::kernel(name, "reduce_dim_2d_f32"@).temp(1).arg(0).temp(0).threads(
                    n,
                    1,
                    256,
                ).clamped(),
            ).returning(0),
        )
    }
}

fn reduce_dim_2d(d0: usize, d1: usize, axis: usize, kind: u32, name: &'static str) -> (r: Result<
    Plan,
    MetalError,
>)
    requires
        axis <= 1 ==> kept(d0 as nat, d1 as nat, axis as nat) * 4 <= usize::MAX,
    ensures
        dispatch::planned(r) == reduce_dim_outcome(d0, d1, axis, kind, name@),
{
    if axis > 1 {
        return Err(
            shape_mismatch(
                Text::start("reduce_dim_2d: axis ").num(axis).lit(" out of range for 2D input"),
            ),
        );
    }
    let out_n: usize = if axis == 0 {
        d1
    } else {
        d0
    };
    let mut words = dispatch::words3(d0, d1, axis);
    words.push(kind);
    assert(words@ =~= seq![d0 as u32, d1 as u32, axis as u32, kind]);
    let d = Dispatch::kernel(name, "reduce_dim_2d_f32").temp(1).arg(0).temp(0).threads(
        out_n as u64,
        1,
        256,
    ).clamped();
    Ok(Plan::empty().buffer(out_n * 4).uniform(16, words).launch(d).returning(0))
}

/// The outcome of a sum over one axis.
pub open spec fn sum_dim(d0: usize, d1: usize, axis: usize) -> Result<PlanModel, ErrorModel> {
    reduce_dim_outcome(d0, d1, axis, REDUCE_KIND_SUM, "sum_dim_2d"@)
}

/// The outcome of a mean over one axis.
pub open spec fn mean_dim(d0: usize, d1: usize, axis: usize) -> Result<PlanModel, ErrorModel> {
    reduce_dim_outcome(d0, d1, axis, REDUCE_KIND_MEAN, "mean_dim_2d"@)
}

/// Sum over one axis of a `[d0, d1]` buffer.
pub fn sum_dim_2d_f32(d0: usize, d1: usize, axis: usize) -> (r: Result<Plan, MetalError>)
    requires
        axis <= 1 ==> kept(d0 as nat, d1 as nat, axis as nat) * 4 <= usize::MAX,
    ensures
        dispatch::planned(r) == sum_dim(d0, d1, axis),
{
    reduce_dim_2d(d0, d1, axis, REDUCE_KIND_SUM, "sum_dim_2d")
}

/// Mean over one axis of a `[d0, d1]` buffer.
pub fn mean_dim_2d_f32(d0: usize, d1: usize, axis: usize) -> (r: Result<Plan, MetalError>)
    requires
        axis <= 1 ==> kept(d0 as nat, d1 as nat, axis as nat) * 4 <= usize::MAX,
    ensures
        dispatch::planned(r) == mean_dim(d0, d1, axis),
{
    reduce_dim_2d(d0, d1, axis, REDUCE_KIND_MEAN, "mean_dim_2d")
}

/// The plan of a transposition.
pub open spec fn transpose_plan(m: usize, n: usize) -> PlanModel {
    PlanModel::empty().buffer((m * n * 4) as nat).uniform(8, seq![m as u32, n as u32]).launch(
        DispatchModel::kernel("transpose2d_f32"@, "transpose2d_f32"@).temp(1).arg(0).temp(0).tiles(
            dispatch::ceil_div(n as nat, 16) * 16,
            dispatch::ceil_div(m as nat, 16) * 16,
            16,
        ),
    ).returning(0)
}

/// Transposition of an `[m, n]` buffer in tiles of 16 by 16.
pub fn transpose2d_f32(m: usize, n: usize) -> (r: Result<Plan, MetalError>)
    requires
        m * n <= usize::MAX,
        m * n * 4 <= usize::MAX,
        dispatch::ceil_div(m as nat, 16) * 16 <= u64::MAX,
        dispatch::ceil_div(n as nat, 16) * 16 <= u64::MAX,
    ensures
        dispatch::planned(r) == Ok::<PlanModel, ErrorModel>(transpose_plan(m, n)),
{
    let groups_x: u64 = dispatch::div_ceil(n as u64, 16);
    let groups_y: u64 = dispatch::div_ceil(m as u64, 16);
    let d = Dispatch::kernel("transpose2d_f32", "transpose2d_f32").temp(1).arg(0).temp(0).tiles(
        groups_x * 16,
        groups_y * 16,
        16,
    );
    Ok(Plan::empty().buffer(m * n * 4).uniform(8, dispatch::words2(m, n)).launch(d).returning(0))
}

/// The first stage covers every element, and each partial result has at
/// least one element to cover.
pub proof fn law_partials_cover(n: nat)
    ensures
        partials(n) * 256 >= n,
        n > 0 ==> (partials(n) - 1) * 256 < n,
        partials(n) == 0 <==> n == 0,
{
    dispatch::law_ceil_div(n, 256);
}

/// What the first stage of a reduction does: each threadgroup adds up, with
/// `add_up`, one entry per thread, `f` of the thread's element or zero behind
/// the last of the elements that the first word at slot 0 counts; the results
/// go to slot `out`.
pub open spec fn partial_kernel<T>(
    num: Num<T>,
    add_up: spec_fn(nat, spec_fn(int) -> T) -> T,
    out: int,
    f: spec_fn(Launch<T>, int) -> T,
    l: Launch<T>,
) -> Seq<Seq<T>> {
    device::writing(
        l,
        out,
        |t: int| t < l.groups.0,
        |t: int|
            add_up(
                l.width,
                |i: int|
                    if t * l.width + i < l.words[0][0] {
                        f(l, t * l.width + i)
                    } else {
                        num.zero
                    },
            ),
    )
}

/// What the second stage does: the sum of as many partial results at slot 1 as
/// the word at slot 3 says, divided by the number of elements where the second
/// word at slot 0 is one, goes to slot 2.
pub open spec fn final_kernel<T>(num: Num<T>, l: Launch<T>) -> Seq<Seq<T>> {
    let sum = num.sum(l.words[3][0] as int, |t: int| l.bufs[1][t]);
    device::writing(
        l,
        2,
        |x: int| x == 0 && 0 < l.threads.0,
        |x: int|
            if l.words[0][1] == 1 {
                (num.div)(sum, (num.of_nat)(l.words[0][0] as nat))
            } else {
                sum
            },
    )
}

/// The sum over the groups of 256 elements of what `add_up` makes of each, where
/// element `i` counts as `f(i)`, and those behind the last as zero.
pub open spec fn grouped_sum<T>(
    num: Num<T>,
    add_up: spec_fn(nat, spec_fn(int) -> T) -> T,
    n: int,
    f: spec_fn(int) -> T,
) -> T {
    num.sum(
        (n + 255) / 256,
        |t: int|
            add_up(
                256,
                |i: int|
                    if t * 256 + i < n {
                        f(t * 256 + i)
                    } else {
                        num.zero
                    },
            ),
    )
}

/// A full reduction gives the sum of all elements, in groups of 256, and the
/// mean is that sum over the number of elements.
#[verifier::rlimit(40)]
pub proof fn law_reduction_computes<T>(
    n: usize,
    num: Num<T>,
    add_up: spec_fn(nat, spec_fn(int) -> T) -> T,
    device: spec_fn(Seq<char>, Launch<T>) -> Seq<Seq<T>>,
    mem: Memory<T>,
)
    requires
        forall|l: Launch<T>| #[trigger]
            device("reduce_partial_f32"@, l) == partial_kernel(
                num,
                add_up,
                2,
                |l: Launch<T>, i: int| l.bufs[1][i],
                l,
            ),
        forall|l: Launch<T>| #[trigger] device("reduce_finalise_f32"@, l) == final_kernel(num, l),
        n <= u32::MAX,
        mem.args.len() == 1,
        mem.temps.len() == 4,
        mem.temps[0].len() * 4 == total_plan(n).allocs[0].bytes,
        mem.temps[2].len() * 4 == total_plan(n).allocs[2].bytes,
    ensures
        ({
            let sum = grouped_sum(num, add_up, n as int, |i: int| mem.args[0][i]);
            &&& device::answer(device, total_plan(n), mem)[0] == sum
            &&& device::answer(device, average_plan(n), mem)[0] == (num.div)(
                sum,
                (num.of_nat)(n as nat),
            )
        }),
{
    lemma_reduction(n, 0, "sum_partial"@, "sum_final"@, num, add_up, device, mem);
    lemma_reduction(n, 1, "mean_partial"@, "mean_final"@, num, add_up, device, mem);
}

#[verifier::rlimit(40)]
#[verifier::spinoff_prover]
proof fn lemma_reduction<T>(
    n: usize,
    kind: u32,
    first: Seq<char>,
    second: Seq<char>,
    num: Num<T>,
    add_up: spec_fn(nat, spec_fn(int) -> T) -> T,
    device: spec_fn(Seq<char>, Launch<T>) -> Seq<Seq<T>>,
    mem: Memory<T>,
)
    requires
        forall|l: Launch<T>| #[trigger]
            device("reduce_partial_f32"@, l) == partial_kernel(
                num,
                add_up,
                2,
                |l: Launch<T>, i: int| l.bufs[1][i],
                l,
            ),
        forall|l: Launch<T>| #[trigger] device("reduce_finalise_f32"@, l) == final_kernel(num, l),
        n <= u32::MAX,
        mem.args.len() == 1,
        mem.temps.len() == 4,
        mem.temps[0].len() * 4 == reduce_plan(n as nat, kind, first, second).allocs[0].bytes,
        mem.temps[2].len() * 4 == reduce_plan(n as nat, kind, first, second).allocs[2].bytes,
    ensures
        ({
            let sum = grouped_sum(num, add_up, n as int, |i: int| mem.args[0][i]);
            device::answer(device, reduce_plan(n as nat, kind, first, second), mem)[0] == if kind
                == 1 {
                (num.div)(sum, (num.of_nat)(n as nat))
            } else {
                sum
            }
        }),
{
    let p = reduce_plan(n as nat, kind, first, second);
    let parts = partials(n as nat);
    dispatch::law_ceil_div(n as nat, 256);
    assert(parts == (n + 255) / 256);
    let d0 = p.dispatches[0];
    let d1 = p.dispatches[1];
    let m1 = device::step(device, p, d0, mem);
    let m2 = device::step(device, p, d1, m1);
    reveal_with_fuel(device::left, 6);
    assert(device::carried_out(device, p, mem) == m2) by {
        reveal_with_fuel(device::run, 3);
        assert(p.dispatches.len() == 2);
    }
    let l0 = device::seen(p, d0, mem);
    assert(l0.words[0] == seq![n as u32, kind]);
    assert(l0.bufs[1] == mem.args[0] && l0.bufs[2] == mem.temps[0] && l0.bufs.len() == 3);
    dispatch::law_ceil_div(parts * 256, 256);
    assert(l0.groups.0 == parts);
    let l1 = device::seen(p, d1, m1);
    assert(l1.words[0] == seq![n as u32, kind] && l1.words[3] == seq![parts as u32]);
    assert(l1.bufs[1] == m1.temps[0] && l1.bufs[2] == m1.temps[2] && l1.bufs.len() == 4);
    assert(m1.temps[2] == mem.temps[2]);
    let elem = |i: int| mem.args[0][i];
    let f = |t: int| l1.bufs[1][t];
    let g = |t: int|
        add_up(
            256,
            |i: int|
                if t * 256 + i < n as int {
                    elem(t * 256 + i)
                } else {
                    num.zero
                },
        );
    let from = |l: Launch<T>, i: int| l.bufs[1][i];
    assert forall|t: int| 0 <= t < parts implies #[trigger] f(t) == g(t) by {
        let a = |i: int|
            if t * l0.width + i < l0.words[0][0] {
                from(l0, t * l0.width + i)
            } else {
                num.zero
            };
        let b = |i: int|
            if t * 256 + i < n as int {
                elem(t * 256 + i)
            } else {
                num.zero
            };
        assert(a =~= b);
        assert(m1.temps[0][t] == add_up(l0.width, a));
    }
    meaning::lemma_sum_congruent(num, parts as int, f, g);
    assert(num.sum(parts as int, g) == grouped_sum(num, add_up, n as int, elem));
}

/// The squared-error reduction gives the sum over all elements of
/// `(a - b)^2`, in groups of 256, and as a mean that sum over their number.
#[verifier::rlimit(40)]
#[verifier::spinoff_prover]
pub proof fn law_mse_computes<T>(
    n: usize,
    kind: u32,
    num: Num<T>,
    add_up: spec_fn(nat, spec_fn(int) -> T) -> T,
    device: spec_fn(Seq<char>, Launch<T>) -> Seq<Seq<T>>,
    mem: Memory<T>,
)
    requires
        forall|l: Launch<T>| #[trigger]
            device("mse_reduce_partial_f32"@, l) == partial_kernel(
                num,
                add_up,
                3,
                |l: Launch<T>, i: int| num.square((num.sub)(l.bufs[1][i], l.bufs[2][i])),
                l,
            ),
        forall|l: Launch<T>| #[trigger] device("reduce_finalise_f32"@, l) == final_kernel(num, l),
        n <= u32::MAX,
        mem.args.len() == 2,
        device::allocated(mse_plan(n, kind), mem, 4),
    ensures
        ({
            let sum = grouped_sum(
                num,
                add_up,
                n as int,
                |i: int| num.square((num.sub)(mem.args[0][i], mem.args[1][i])),
            );
            device::answer(device, mse_plan(n, kind), mem)[0] == if kind == 1 {
                (num.div)(sum, (num.of_nat)(n as nat))
            } else {
                sum
            }
        }),
{
    let p = mse_plan(n, kind);
    let parts = partials(n as nat);
    dispatch::law_ceil_div(n as nat, 256);
    assert(parts == (n + 255) / 256);
    let d0 = p.dispatches[0];
    let d1 = p.dispatches[1];
    let m1 = device::step(device, p, d0, mem);
    let m2 = device::step(device, p, d1, m1);
    reveal_with_fuel(device::left, 6);
    assert(device::carried_out(device, p, mem) == m2) by {
        reveal_with_fuel(device::run, 3);
        assert(p.dispatches.len() == 2);
    }
    assert(mem.temps[0].len() * 4 == p.allocs[0].bytes);
    assert(mem.temps[1].len() * 4 == p.allocs[1].bytes);
    let l0 = device::seen(p, d0, mem);
    assert(l0.words[0] == seq![n as u32, kind]);
    assert(l0.bufs[1] == mem.args[0] && l0.bufs[2] == mem.args[1] && l0.bufs[3] == mem.temps[0]
        && l0.bufs.len() == 4);
    dispatch::law_ceil_div(parts * 256, 256);
    assert(l0.groups.0 == parts);
    let l1 = device::seen(p, d1, m1);
    assert(l1.words[0] == seq![n as u32, kind] && l1.words[3] == seq![parts as u32]);
    assert(l1.bufs[1] == m1.temps[0] && l1.bufs[2] == m1.temps[1] && l1.bufs.len() == 4);
    assert(m1.temps[1] == mem.temps[1]);
    let elem = |i: int| num.square((num.sub)(mem.args[0][i], mem.args[1][i]));
    let f = |t: int| l1.bufs[1][t];
    let g = |t: int|
        add_up(
            256,
            |i: int|
                if t * 256 + i < n as int {
                    elem(t * 256 + i)
                } else {
                    num.zero
                },
        );
    let from = |l: Launch<T>, i: int| num.square((num.sub)(l.bufs[1][i], l.bufs[2][i]));
    assert forall|t: int| 0 <= t < parts implies #[trigger] f(t) == g(t) by {
        let a = |i: int|
            if t * l0.width + i < l0.words[0][0] {
                from(l0, t * l0.width + i)
            } else {
                num.zero
            };
        let b = |i: int|
            if t * 256 + i < n as int {
                elem(t * 256 + i)
            } else {
                num.zero
            };
        assert(a =~= b);
        assert(m1.temps[0][t] == add_up(l0.width, a));
    }
    meaning::lemma_sum_congruent(num, parts as int, f, g);
    assert(num.sum(parts as int, g) == grouped_sum(num, add_up, n as int, elem));
}

/// What the bias kernel does: the words at slot 0 are the numbers of rows and
/// columns, the matrix is at slot 1, the bias at slot 2, the result at slot 3.
pub open spec fn bias_kernel<T>(num: Num<T>, l: Launch<T>) -> Seq<Seq<T>> {
    let rows = l.words[0][0];
    let cols = l.words[0][1] as int;
    device::writing(
        l,
        3,
        |x: int| x < rows * cols && x < l.threads.0,
        |x: int| (num.add)(l.bufs[1][x], l.bufs[2][x % cols]),
    )
}

/// The bias addition gives `out[i, j] = x[i, j] + bias[j]`.
pub proof fn law_add_bias_computes<T>(
    rows: usize,
    cols: usize,
    num: Num<T>,
    device: spec_fn(Seq<char>, Launch<T>) -> Seq<Seq<T>>,
    mem: Memory<T>,
    i: int,
    j: int,
)
    requires
        forall|l: Launch<T>| #[trigger] device("add_bias_f32"@, l) == bias_kernel(num, l),
        rows <= u32::MAX && cols <= u32::MAX,
        mem.args.len() == 2,
        mem.temps.len() == 2,
        mem.temps[0].len() * 4 == bias_plan(rows, cols).allocs[0].bytes,
        0 <= i < rows,
        0 <= j < cols,
    ensures
        device::answer(device, bias_plan(rows, cols), mem)[i * cols + j] == (num.add)(
            mem.args[0][i * cols + j],
            mem.args[1][j],
        ),
{
    let p = bias_plan(rows, cols);
    device::lemma_single(device, p, mem);
    reveal_with_fuel(device::left, 6);
    let l = device::seen(p, p.dispatches[0], mem);
    assert(l.words[0] == seq![rows as u32, cols as u32]);
    assert(l.bufs[1] == mem.args[0] && l.bufs[2] == mem.args[1] && l.bufs[3] == mem.temps[0]);
    assert(l.bufs.len() == 4);
    let x = i * cols + j;
    assert(0 <= x < rows * cols && x % (cols as int) == j) by (nonlinear_arith)
        requires
            x == i * cols + j,
            0 <= i < rows,
            0 <= j < cols,
    ;
}

/// What the axis reduction does: the words at slot 0 are the two sizes, the axis
/// and the kind; the matrix is at slot 1, the result at slot 2.
pub open spec fn axis_kernel<T>(num: Num<T>, l: Launch<T>) -> Seq<Seq<T>> {
    let d0 = l.words[0][0] as int;
    let d1 = l.words[0][1] as int;
    let mean = l.words[0][3] == 1;
    if l.words[0][2] == 0 {
        device::writing(
            l,
            2,
            |x: int| x < d1 && x < l.threads.0,
            |x: int| reduced(num, mean, d0, |i: int| l.bufs[1][i * d1 + x]),
        )
    } else {
        device::writing(
            l,
            2,
            |x: int| x < d0 && x < l.threads.0,
            |x: int| reduced(num, mean, d1, |j: int| l.bufs[1][x * d1 + j]),
        )
    }
}

/// The sum of `f(0), .., f(n - 1)`, or their mean.
pub open spec fn reduced<T>(num: Num<T>, mean: bool, n: int, f: spec_fn(int) -> T) -> T {
    if mean {
        num.mean(n, f)
    } else {
        num.sum(n, f)
    }
}

proof fn lemma_axis<T>(
    d0: usize,
    d1: usize,
    axis: usize,
    kind: u32,
    name: Seq<char>,
    num: Num<T>,
    device: spec_fn(Seq<char>, Launch<T>) -> Seq<Seq<T>>,
    mem: Memory<T>,
    x: int,
)
    requires
        forall|l: Launch<T>| #[trigger] device("reduce_dim_2d_f32"@, l) == axis_kernel(num, l),
        d0 <= u32::MAX && d1 <= u32::MAX,
        axis <= 1,
        mem.args.len() == 1,
        mem.temps.len() == 2,
        mem.temps[0].len() * 4 == reduce_dim_outcome(d0, d1, axis, kind, name)->Ok_0.allocs[0].bytes,
        0 <= x < if axis == 0 { d1 } else { d0 },
    ensures
        device::answer(device, reduce_dim_outcome(d0, d1, axis, kind, name)->Ok_0, mem)[x]
            == if axis == 0 {
            reduced(num, kind == 1, d0 as int, |i: int| mem.args[0][i * d1 + x])
        } else {
            reduced(num, kind == 1, d1 as int, |j: int| mem.args[0][x * d1 + j])
        },
{
    let p = reduce_dim_outcome(d0, d1, axis, kind, name)->Ok_0;
    device::lemma_single(device, p, mem);
    reveal_with_fuel(device::left, 6);
    let l = device::seen(p, p.dispatches[0], mem);
    assert(l.words[0] == seq![d0 as u32, d1 as u32, axis as u32, kind]);
    assert(l.bufs[1] == mem.args[0] && l.bufs[2] == mem.temps[0]);
    assert(l.bufs.len() == 3);
    let f = |i: int| mem.args[0][i * d1 + x];
    let f2 = |i: int| mem.args[0][i * (l.words[0][1] as int) + x];
    let g = |j: int| mem.args[0][x * d1 + j];
    let g2 = |j: int| mem.args[0][x * (l.words[0][1] as int) + j];
    meaning::lemma_sum_congruent(num, d0 as int, f, f2);
    meaning::lemma_sum_congruent(num, d1 as int, g, g2);
}

/// Reducing axis 0 of a `[d0, d1]` matrix gives, for each column, the sum or the
/// mean over its rows; reducing axis 1 gives, for each row, that over its
/// columns.
pub proof fn law_axis_reduction_computes<T>(
    d0: usize,
    d1: usize,
    num: Num<T>,
    device: spec_fn(Seq<char>, Launch<T>) -> Seq<Seq<T>>,
    mem: Memory<T>,
    x: int,
)
    requires
        forall|l: Launch<T>| #[trigger] device("reduce_dim_2d_f32"@, l) == axis_kernel(num, l),
        d0 <= u32::MAX && d1 <= u32::MAX,
        mem.args.len() == 1,
        mem.temps.len() == 2,
        0 <= x,
    ensures
        ({
            let column = |i: int| mem.args[0][i * d1 + x];
            let row = |j: int| mem.args[0][x * d1 + j];
            &&& x < d1 && mem.temps[0].len() == d1 ==> {
                &&& device::answer(device, sum_dim(d0, d1, 0)->Ok_0, mem)[x] == num.sum(
                    d0 as int,
                    column,
                )
                &&& device::answer(device, mean_dim(d0, d1, 0)->Ok_0, mem)[x] == (num.div)(
                    num.sum(d0 as int, column),
                    (num.of_nat)(d0 as nat),
                )
            }
            &&& x < d0 && mem.temps[0].len() == d0 ==> {
                &&& device::answer(device, sum_dim(d0, d1, 1)->Ok_0, mem)[x] == num.sum(
                    d1 as int,
                    row,
                )
                &&& device::answer(device, mean_dim(d0, d1, 1)->Ok_0, mem)[x] == (num.div)(
                    num.sum(d1 as int, row),
                    (num.of_nat)(d1 as nat),
                )
            }
        }),
        sum_dim(d0, d1, 0) is Ok && sum_dim(d0, d1, 1) is Ok,
        mean_dim(d0, d1, 0) is Ok && mean_dim(d0, d1, 1) is Ok,
        sum_dim(d0, d1, 0)->Ok_0.allocs[0].bytes == d1 * 4,
        sum_dim(d0, d1, 1)->Ok_0.allocs[0].bytes == d0 * 4,
        mean_dim(d0, d1, 0)->Ok_0.allocs[0].bytes == d1 * 4,
        mean_dim(d0, d1, 1)->Ok_0.allocs[0].bytes == d0 * 4,
{
    if x < d1 && mem.temps[0].len() == d1 {
        lemma_axis(d0, d1, 0, 0, "sum_dim_2d"@, num, device, mem, x);
        lemma_axis(d0, d1, 0, 1, "mean_dim_2d"@, num, device, mem, x);
    }
    if x < d0 && mem.temps[0].len() == d0 {
        lemma_axis(d0, d1, 1, 0, "sum_dim_2d"@, num, device, mem, x);
        lemma_axis(d0, d1, 1, 1, "mean_dim_2d"@, num, device, mem, x);
    }
}

/// What the transposition does: the words at slot 0 are the numbers of rows and
/// columns, the matrix is at slot 1; threadgroup `[gx, gy]` writes the square of
/// 16 by 16 entries of the result, at slot 2, that starts at row `16 gx` and
/// column `16 gy`.
pub open spec fn transpose_kernel<T>(l: Launch<T>) -> Seq<Seq<T>> {
    let m = l.words[0][0] as int;
    let n = l.words[0][1] as int;
    device::writing(
        l,
        2,
        |x: int| x / m < n && x / m / 16 < l.groups.0 && x % m / 16 < l.groups.1,
        |x: int| l.bufs[1][(x % m) * n + x / m],
    )
}

/// The transposition of an `[m, n]` matrix holds entry `[i, j]` at `[j, i]`.
pub proof fn law_transpose_computes<T>(
    m: usize,
    n: usize,
    device: spec_fn(Seq<char>, Launch<T>) -> Seq<Seq<T>>,
    mem: Memory<T>,
    i: int,
    j: int,
)
    requires
        forall|l: Launch<T>| #[trigger] device("transpose2d_f32"@, l) == transpose_kernel(l),
        m <= u32::MAX && n <= u32::MAX,
        mem.args.len() == 1,
        mem.temps.len() == 2,
        mem.temps[0].len() * 4 == transpose_plan(m, n).allocs[0].bytes,
        0 <= i < m,
        0 <= j < n,
    ensures
        device::answer(device, transpose_plan(m, n), mem)[j * m + i] == mem.args[0][i * n + j],
{
    let p = transpose_plan(m, n);
    device::lemma_single(device, p, mem);
    reveal_with_fuel(device::left, 6);
    let l = device::seen(p, p.dispatches[0], mem);
    assert(l.words[0] == seq![m as u32, n as u32]);
    assert(l.bufs[1] == mem.args[0] && l.bufs[2] == mem.temps[0]);
    assert(l.bufs.len() == 3);
    let x = j * m + i;
    assert(0 <= x < m * n && x % (m as int) == i && x / (m as int) == j) by (nonlinear_arith)
        requires
            x == j * m + i,
            0 <= i < m,
            0 <= j < n,
    ;
    let gx = dispatch::ceil_div(n as nat, 16);
    let gy = dispatch::ceil_div(m as nat, 16);
    dispatch::law_ceil_div(n as nat, 16);
    dispatch::law_ceil_div(m as nat, 16);
    dispatch::law_ceil_div(gx * 16, 16);
    dispatch::law_ceil_div(gy * 16, 16);
    assert(l.groups.0 == gx && l.groups.1 == gy);
}

} // verus!
