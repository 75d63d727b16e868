//! The optimiser step as a single launch.
use crate::metal::device;
use crate::metal::device::{Launch, Memory};
use crate::metal::dispatch;
use crate::metal::dispatch::{Dispatch, DispatchModel, Plan, PlanModel};
use crate::metal::error::{shape_mismatch, ErrorModel, MetalError};
use crate::nn::meaning::Num;
use crate::text;
use crate::text::Text;
use vstd::prelude::*;

verus! {

/// Threads per threadgroup.
pub const TG_SIZE: u64 = 256;

/// Hyperparameters of one step, each single-precision value given by its
/// bits. `bc1` and `bc2` are the bias corrections `1 - beta1^t` and
/// `1 - beta2^t`.
#[derive(Debug, Clone, Copy)]
pub struct AdamWStepParams {
    pub lr: u32,
    pub beta1: u32,
    pub beta2: u32,
    pub eps: u32,
    pub weight_decay: u32,
    pub bc1: u32,
    pub bc2: u32,
}

impl AdamWStepParams {
    /// The parameter block of the kernel for `n` elements.
    pub open spec fn block(self, n: u32) -> Seq<u32> {
        seq![
            self.lr,
            self.beta1,
            self.beta2,
            self.eps,
            self.weight_decay,
            self.bc1,
            self.bc2,
            n,
        ]
    }

    /// Lays the hyperparameters out for the kernel.
    pub fn into_uniform(self, n: u32) -> (r: Vec<u32>)
        ensures
            r@ == self.block(n),
    {
        let mut r: Vec<u32> = Vec::new();
        r.push(self.lr);
        r.push(self.beta1);
        r.push(self.beta2);
        r.push(self.eps);
        r.push(self.weight_decay);
        r.push(self.bc1);
        r.push(self.bc2);
        r.push(n);
        assert(r@ =~= self.block(n));
        r
    }
}

/// Byte lengths of the buffers of a step.
#[derive(Debug, Clone, Copy)]
pub struct StepBuffers {
    pub param: u64,
    pub grad: u64,
    pub m: u64,
    pub v: u64,
}

impl StepBuffers {
    /// Every buffer has at least `bytes` bytes.
    pub open spec fn hold(self, bytes: int) -> bool {
        self.param >= bytes && self.grad >= bytes && self.m >= bytes && self.v >= bytes
    }

    fn all_hold(self, bytes: u64) -> (r: bool)
        ensures
            r == self.hold(bytes as int),
    {
        self.param >= bytes && self.grad >= bytes && self.m >= bytes && self.v >= bytes
    }
}

/// The error for buffers that are too small for `n` elements.
pub open spec fn too_small(head: Seq<char>, n: usize) -> ErrorModel {
    ErrorModel::ShapeMismatch(
        head + text::decimal(n as nat) + " (need "@ + text::decimal((n * 4) as nat)
            + " bytes each)"@,
    )
}

fn refuse(head: &str, n: usize) -> (r: MetalError)
    requires
        n * 4 <= usize::MAX,
    ensures
        r@ == too_small(head@, n),
{
    shape_mismatch(Text::start(head).num(n).lit(" (need ").num(n * 4).lit(" bytes each)"))
}

/// The plan of a step into a fresh parameter buffer.
pub open spec fn step_plan(n: usize, params: AdamWStepParams) -> PlanModel {
    PlanModel::empty().buffer((n * 4) as nat).uniform(32, params.block(n as u32)).launch(
        DispatchModel::kernel("fused_adamw_f32"@, "fused_adamw_f32"@).temp(1).arg(0).arg(1).arg(
            2,
        ).arg(3).temp(0).threads(n as nat, 1, 256).clamped(),
    ).returning(0)
}

/// The plan of a step that overwrites the parameters.
pub open spec fn inplace_plan(n: usize, params: AdamWStepParams) -> PlanModel {
    dispatch::only(
        DispatchModel::kernel("fused_adamw_f32_inplace"@, "fused_adamw_f32_inplace"@).words(
            params.block(n as u32),
        ).arg(0).arg(1).arg(2).arg(3).threads(n as nat, 1, 256).clamped(),
    )
}

/// One step into a fresh parameter buffer. The caller's buffers are the
/// parameters, the gradient and the two moments; the moments are updated in
/// place.
pub fn fused_adamw_step(lens: StepBuffers, n: usize, params: AdamWStepParams) -> (r: Result<
    Plan,
    MetalError,
>)
    requires
        n * 4 <= usize::MAX,
    ensures
        dispatch::planned(r) == if !lens.hold(n * 4) {
            Err(too_small("fused_adamw: buffer too small for n="@, n))
        } else {
            Ok(step_plan(n, params))
        },
{
    let n_bytes: usize = n * 4;
    if !lens.all_hold(n_bytes as u64) {
        return Err(refuse("fused_adamw: buffer too small for n=", n));
    }
    let d = Dispatch::kernel("fused_adamw_f32", "fused_adamw_f32").temp(1).arg(0).arg(1).arg(
        2,
    ).arg(3).temp(0).threads(n as u64, 1, TG_SIZE).clamped();
    Ok(
        Plan::empty().buffer(n_bytes).uniform(32, params.into_uniform(n as u32)).launch(
            d,
        ).returning(0),
    )
}

/// One step that overwrites the parameters.
pub fn fused_adamw_step_inplace(lens: StepBuffers, n: usize, params: AdamWStepParams) -> (r: Result<
    Plan,
    MetalError,
>)
    requires
        n * 4 <= usize::MAX,
    ensures
        dispatch::planned(r) == if !lens.hold(n * 4) {
            Err(too_small("fused_adamw_inplace: buffer too small for n="@, n))
        } else {
            Ok(inplace_plan(n, params))
        },
{
    let n_bytes: usize = n * 4;
    if !lens.all_hold(n_bytes as u64) {
        return Err(refuse("fused_adamw_inplace: buffer too small for n=", n));
    }
    let d = Dispatch::kernel("fused_adamw_f32_inplace", "fused_adamw_f32_inplace").words(
        params.into_uniform(n as u32),
    ).arg(0).arg(1).arg(2).arg(3).threads(n as u64, 1, TG_SIZE).clamped();
    Ok(dispatch::just(d))
}

/// Size of a zeroed moment buffer for `numel` elements; the error where it
/// would be empty.
pub fn allocate_zeros(numel: usize) -> (r: Result<u64, MetalError>)
    requires
        numel * 4 <= usize::MAX,
    ensures
        crate::metal::backend::sized(r) == crate::metal::backend::shared_size(numel * 4),
{
    crate::metal::backend::check_shared(numel * 4)
}

/// The parameter block holds each hyperparameter at the word where the kernel
/// reads it: the learning rate, the two decays, the epsilon, the weight decay,
/// the two bias corrections, and the number of elements.
pub proof fn law_block_order(p: AdamWStepParams, n: u32)
    ensures
        p.block(n).len() == 8,
        p.block(n)[0] == p.lr,
        p.block(n)[1] == p.beta1,
        p.block(n)[2] == p.beta2,
        p.block(n)[3] == p.eps,
        p.block(n)[4] == p.weight_decay,
        p.block(n)[5] == p.bc1,
        p.block(n)[6] == p.bc2,
        p.block(n)[7] == n,
{
}

/// The new first moment: `beta1 * m + (1 - beta1) * g`.
pub open spec fn next_m<T>(num: Num<T>, beta1: T, m: T, g: T) -> T {
    (num.add)((num.mul)(beta1, m), (num.mul)((num.sub)(num.one, beta1), g))
}

/// The new second moment: `beta2 * v + (1 - beta2) * g * g`.
pub open spec fn next_v<T>(num: Num<T>, beta2: T, v: T, g: T) -> T {
    (num.add)(
        (num.mul)(beta2, v),
        (num.mul)((num.mul)((num.sub)(num.one, beta2), g), g),
    )
}

/// The new parameter, from the new moments: `p - lr * (m / bc1) / (sqrt(v / bc2)
/// + eps)`, less `lr * wd * p` where the weight decay is positive.
pub open spec fn next_param<T>(
    num: Num<T>,
    positive: spec_fn(T) -> bool,
    lr: T,
    eps: T,
    wd: T,
    bc1: T,
    bc2: T,
    p: T,
    m: T,
    v: T,
) -> T {
    let moved = (num.sub)(
        p,
        (num.div)(
            (num.mul)(lr, (num.div)(m, bc1)),
            (num.add)((num.sqrt)((num.div)(v, bc2)), eps),
        ),
    );
    if positive(wd) {
        (num.sub)(moved, (num.mul)((num.mul)(lr, wd), p))
    } else {
        moved
    }
}

/// What both kernels do: the hyperparameters are the words at slot 0, the
/// parameters, the gradient and the two moments are at the slots behind it,
/// and the new parameters go to slot `out`.
pub open spec fn step_kernel<T>(
    num: Num<T>,
    positive: spec_fn(T) -> bool,
    out: int,
    l: Launch<T>,
) -> Seq<Seq<T>> {
    let h = l.words[0];
    let done = |x: int| x < h[7] && x < l.threads.0;
    let m = |x: int| next_m(num, (num.of_bits)(h[1]), l.bufs[3][x], l.bufs[2][x]);
    let v = |x: int| next_v(num, (num.of_bits)(h[2]), l.bufs[4][x], l.bufs[2][x]);
    let p = |x: int|
        next_param(
            num,
            positive,
            (num.of_bits)(h[0]),
            (num.of_bits)(h[3]),
            (num.of_bits)(h[4]),
            (num.of_bits)(h[5]),
            (num.of_bits)(h[6]),
            l.bufs[1][x],
            m(x),
            v(x),
        );
    let all = |s: int, f: spec_fn(int) -> T|
        Seq::new(
            l.bufs[s].len(),
            |x: int|
                if done(x) {
                    f(x)
                } else {
                    l.bufs[s][x]
                },
        );
    l.bufs.update(3, all(3, m)).update(4, all(4, v)).update(out, all(out, p))
}

/// A step on a device whose kernels do what they say: every element of the
/// moments becomes `beta1 * m + (1 - beta1) * g` and `beta2 * v + (1 - beta2) *
/// g^2`, and the parameter moves against the corrected moments; the gradient
/// stays. The fresh buffer receives the new parameters and the caller's stay,
/// or the caller's are overwritten.
pub proof fn law_step_computes<T>(
    params: AdamWStepParams,
    n: usize,
    num: Num<T>,
    positive: spec_fn(T) -> bool,
    device: spec_fn(Seq<char>, Launch<T>) -> Seq<Seq<T>>,
    mem: Memory<T>,
    x: int,
)
    requires
        forall|l: Launch<T>| #[trigger]
            device("fused_adamw_f32"@, l) == step_kernel(num, positive, 5, l),
        forall|l: Launch<T>| #[trigger]
            device("fused_adamw_f32_inplace"@, l) == step_kernel(num, positive, 1, l),
        n <= u32::MAX,
        mem.args.len() == 4,
        mem.args[0].len() >= n,
        mem.args[2].len() >= n,
        mem.args[3].len() >= n,
        0 <= x < n,
    ensures
        ({
            let p = mem.args[0][x];
            let g = mem.args[1][x];
            let m = next_m(num, (num.of_bits)(params.beta1), mem.args[2][x], g);
            let v = next_v(num, (num.of_bits)(params.beta2), mem.args[3][x], g);
            let q = next_param(
                num,
                positive,
                (num.of_bits)(params.lr),
                (num.of_bits)(params.eps),
                (num.of_bits)(params.weight_decay),
                (num.of_bits)(params.bc1),
                (num.of_bits)(params.bc2),
                p,
                m,
                v,
            );
            let fresh = step_plan(n, params);
            let a = device::carried_out(device, fresh, mem);
            let b = device::carried_out(device, inplace_plan(n, params), mem);
            &&& mem.temps.len() == 2 && mem.temps[0].len() * 4 == fresh.allocs[0].bytes ==> {
                &&& device::answer(device, fresh, mem)[x] == q
                &&& a.args[0] == mem.args[0]
                &&& a.args[1] == mem.args[1]
                &&& a.args[2][x] == m
                &&& a.args[3][x] == v
            }
            &&& b.args[0][x] == q
            &&& b.args[1] == mem.args[1]
            &&& b.args[2][x] == m
            &&& b.args[3][x] == v
        }),
{
    law_block_order(params, n as u32);
    let fresh = step_plan(n, params);
    let d = fresh.dispatches[0];
    device::lemma_single(device, fresh, mem);
    let l = device::seen(fresh, d, mem);
    reveal_with_fuel(device::left, 8);
    let inplace = inplace_plan(n, params);
    let e = inplace.dispatches[0];
    device::lemma_single(device, inplace, mem);
    let k = device::seen(inplace, e, mem);
    assert(l.words[0] == params.block(n as u32));
    assert(k.words[0] == params.block(n as u32));
    assert(l.bufs[1] == mem.args[0] && l.bufs[2] == mem.args[1] && l.bufs[3] == mem.args[2]
        && l.bufs[4] == mem.args[3]);
    assert(k.bufs[1] == mem.args[0] && k.bufs[2] == mem.args[1] && k.bufs[3] == mem.args[2]
        && k.bufs[4] == mem.args[3]);
    assert(l.threads.0 == n && k.threads.0 == n);
    assert(l.bufs.len() == 6 && k.bufs.len() == 5);
}

/// The words that the call makes of the hyperparameters: the learning rate, the
/// decay of the first moment, that of the second, the epsilon, the weight decay,
/// the corrections of the first and the second moment, and the number of
/// elements.
pub proof fn law_words_call(p: AdamWStepParams, n: u32, w: Vec<u32>)
    requires
        call_ensures(AdamWStepParams::into_uniform, (p, n), w),
    ensures
        w@.len() == 8,
        w@[0] == p.lr,
        w@[1] == p.beta1,
        w@[2] == p.beta2,
        w@[3] == p.eps,
        w@[4] == p.weight_decay,
        w@[5] == p.bc1,
        w@[6] == p.bc2,
        w@[7] == n,
{
    law_block_order(p, n);
}

} // verus!
