//! Element-wise kernels.
use crate::metal::device;
use crate::metal::device::{Launch, Memory};
use crate::metal::dispatch;
use crate::metal::dispatch::{Dispatch, DispatchModel, Plan, PlanModel};
use crate::metal::error::{shape_mismatch, ErrorModel, MetalError};
use crate::nn::meaning::Num;
use crate::text;
use crate::text::Text;
use vstd::prelude::*;

verus! {

/// Operation codes of the binary kernel.
pub const BIN_KIND_SUB: u32 = 1;

pub const BIN_KIND_MUL: u32 = 2;

pub const BIN_KIND_DIV: u32 = 3;

/// Operation codes of the unary kernel.
pub const UN_KIND_NEG: u32 = 0;

pub const UN_KIND_RELU: u32 = 1;

pub const UN_KIND_SIGMOID: u32 = 2;

pub const UN_KIND_TANH: u32 = 3;

pub const UN_KIND_SILU: u32 = 4;

pub const UN_KIND_ABS: u32 = 5;

pub const UN_KIND_SQRT: u32 = 6;

pub const UN_KIND_EXP: u32 = 7;

pub const UN_KIND_LOG: u32 = 8;

/// The two-word parameter block of an element-wise kernel.
fn params2(n: usize, kind: u32) -> (r: Vec<u32>)
    ensures
        r@ == seq![n as u32, kind],
{
    let mut r = dispatch::words1(n);
    r.push(kind);
    assert(r@ =~= seq![n as u32, kind]);
    r
}

/// The three-word parameter block of a kernel with a scalar operand, whose
/// single-precision value is given by its bits.
fn params3(n: usize, kind: u32, scalar_bits: u32) -> (r: Vec<u32>)
    ensures
        r@ == seq![n as u32, kind, scalar_bits],
{
    let mut r = params2(n, kind);
    r.push(scalar_bits);
    assert(r@ =~= seq![n as u32, kind, scalar_bits]);
    r
}

/// The plan of an addition of `n` elements.
pub open spec fn sum_plan(n: usize) -> PlanModel {
    PlanModel::empty().buffer((n * 4) as nat).uniform(4, seq![n as u32]).launch(
        DispatchModel::kernel("add_f32"@, "add_f32"@).arg(0).arg(1).temp(0).temp(1).threads(
            n as nat,
            1,
            256,
        ).clamped(),
    ).returning(0)
}

/// `out = lhs + rhs` on `n` elements. The operands have `lhs_len` and
/// `rhs_len` bytes.
pub fn add_f32(lhs_len: u64, rhs_len: u64, n: usize) -> (r: Result<Plan, MetalError>)
    requires
        n * 4 <= usize::MAX,
    ensures
        dispatch::planned(r) == if lhs_len < n * 4 || rhs_len < n * 4 {
            Err(
                ErrorModel::ShapeMismatch(
                    "add_f32: lhs/rhs buffer length too small (n="@ + text::decimal(n as nat)
                        + ", need "@ + text::decimal((n * 4) as nat) + " bytes)"@,
                ),
            )
        } else {
            Ok(sum_plan(n))
        },
{
    let n_bytes: usize = n * 4;
    if lhs_len < n_bytes as u64 || rhs_len < n_bytes as u64 {
        return Err(
            shape_mismatch(
                Text::start("add_f32: lhs/rhs buffer length too small (n=").num(n).lit(
                    ", need ",
                ).num(n_bytes).lit(" bytes)"),
            ),
        );
    }
    let d = Dispatch::kernel("add_f32", "add_f32").arg(0).arg(1).temp(0).temp(1).threads(
        n as u64,
        1,
        256,
    ).clamped();
    Ok(Plan::empty().buffer(n_bytes).uniform(4, dispatch::words1(n)).launch(d).returning(0))
}

/// The plan of a binary element-wise kernel on `n` elements.
pub open spec fn binary_plan(name: Seq<char>, kind: u32, n: nat) -> PlanModel {
    PlanModel::empty().buffer(n * 4).uniform(8, seq![n as u32, kind]).launch(
        DispatchModel::kernel(name, "binary_f32"@).temp(1).arg(0).arg(1).temp(0).threads(
            n,
            1,
            256,
        ).clamped(),
    ).returning(0)
}

fn dispatch_binary(kind: u32, name: &'static str, n: usize) -> (r: Plan)
    requires
        n * 4 <= usize::MAX,
    ensures
        r@ == binary_plan(name@, kind, n as nat),
{
    let d = Dispatch::kernel(name, "binary_f32").temp(1).arg(0).arg(1).temp(0).threads(
        n as u64,
        1,
        256,
    ).clamped();
    Plan::empty().buffer(n * 4).uniform(8, params2(n, kind)).launch(d).returning(0)
}

/// The plan of a unary element-wise kernel on `n` elements.
pub open spec fn unary_plan(name: Seq<char>, kind: u32, n: nat) -> PlanModel {
    PlanModel::empty().buffer(n * 4).uniform(8, seq![n as u32, kind]).launch(
        DispatchModel::kernel(name, "unary_f32"@).temp(1).arg(0).temp(0).threads(
            n,
            1,
            256,
        ).clamped(),
    ).returning(0)
}

fn dispatch_unary(kind: u32, name: &'static str, n: usize) -> (r: Plan)
    requires
        n * 4 <= usize::MAX,
    ensures
        r@ == unary_plan(name@, kind, n as nat),
{
    let d = Dispatch::kernel(name, "unary_f32").temp(1).arg(0).temp(0).threads(
        n as u64,
        1,
        256,
    ).clamped();
    Plan::empty().buffer(n * 4).uniform(8, params2(n, kind)).launch(d).returning(0)
}

/// The plan of an element-wise kernel with a scalar operand.
pub open spec fn scalar_plan(name: Seq<char>, kind: u32, scalar_bits: u32, n: nat) -> PlanModel {
    PlanModel::empty().buffer(n * 4).uniform(12, seq![n as u32, kind, scalar_bits]).launch(
        DispatchModel::kernel(name, "binary_scalar_f32"@).temp(1).arg(0).temp(0).threads(
            n,
            1,
            256,
        ).clamped(),
    ).returning(0)
}

fn dispatch_binary_scalar(kind: u32, name: &'static str, scalar_bits: u32, n: usize) -> (r: Plan)
    requires
        n * 4 <= usize::MAX,
    ensures
        r@ == scalar_plan(name@, kind, scalar_bits, n as nat),
{
    let d = Dispatch::kernel(name, "binary_scalar_f32").temp(1).arg(0).temp(0).threads(
        n as u64,
        1,
        256,
    ).clamped();
    Plan::empty().buffer(n * 4).uniform(12, params3(n, kind, scalar_bits)).launch(d).returning(0)
}

/// The plan of `sub_f32`.
pub open spec fn sub_plan(n: usize) -> PlanModel {
    binary_plan("sub_f32"@, BIN_KIND_SUB, n as nat)
}

/// `out = lhs - rhs` on `n` elements.
pub fn sub_f32(n: usize) -> (r: Result<Plan, MetalError>)
    requires
        n * 4 <= usize::MAX,
    ensures
        dispatch::planned(r) == Ok::<PlanModel, ErrorModel>(sub_plan(n)),
{
    Ok(dispatch_binary(BIN_KIND_SUB, "sub_f32", n))
}

/// The plan of `mul_f32`.
pub open spec fn mul_plan(n: usize) -> PlanModel {
    binary_plan("mul_f32"@, BIN_KIND_MUL, n as nat)
}

/// `out = lhs * rhs` on `n` elements.
pub fn mul_f32(n: usize) -> (r: Result<Plan, MetalError>)
    requires
        n * 4 <= usize::MAX,
    ensures
        dispatch::planned(r) == Ok::<PlanModel, ErrorModel>(mul_plan(n)),
{
    Ok(dispatch_binary(BIN_KIND_MUL, "mul_f32", n))
}

/// The plan of `div_f32`.
pub open spec fn div_plan(n: usize) -> PlanModel {
    binary_plan("div_f32"@, BIN_KIND_DIV, n as nat)
}

/// `out = lhs / rhs` on `n` elements.
pub fn div_f32(n: usize) -> (r: Result<Plan, MetalError>)
    requires
        n * 4 <= usize::MAX,
    ensures
        dispatch::planned(r) == Ok::<PlanModel, ErrorModel>(div_plan(n)),
{
    Ok(dispatch_binary(BIN_KIND_DIV, "div_f32", n))
}

/// The plan of `neg_f32`.
pub open spec fn neg_plan(n: usize) -> PlanModel {
    unary_plan("neg_f32"@, UN_KIND_NEG, n as nat)
}

/// `out = -x` on `n` elements.
pub fn neg_f32(n: usize) -> (r: Result<Plan, MetalError>)
    requires
        n * 4 <= usize::MAX,
    ensures
        dispatch::planned(r) == Ok::<PlanModel, ErrorModel>(neg_plan(n)),
{
    Ok(dispatch_unary(UN_KIND_NEG, "neg_f32", n))
}

/// The plan of `relu_f32`.
pub open spec fn relu_plan(n: usize) -> PlanModel {
    unary_plan("relu_f32"@, UN_KIND_RELU, n as nat)
}

/// `out = max(0, x)` on `n` elements.
pub fn relu_f32(n: usize) -> (r: Result<Plan, MetalError>)
    requires
        n * 4 <= usize::MAX,
    ensures
        dispatch::planned(r) == Ok::<PlanModel, ErrorModel>(relu_plan(n)),
{
    Ok(dispatch_unary(UN_KIND_RELU, "relu_f32", n))
}

/// The plan of `sigmoid_f32`.
pub open spec fn sigmoid_plan(n: usize) -> PlanModel {
    unary_plan("sigmoid_f32"@, UN_KIND_SIGMOID, n as nat)
}

/// `out = 1 / (1 + exp(-x))` on `n` elements.
pub fn sigmoid_f32(n: usize) -> (r: Result<Plan, MetalError>)
    requires
        n * 4 <= usize::MAX,
    ensures
        dispatch::planned(r) == Ok::<PlanModel, ErrorModel>(sigmoid_plan(n)),
{
    Ok(dispatch_unary(UN_KIND_SIGMOID, "sigmoid_f32", n))
}

/// The plan of `tanh_f32`.
pub open spec fn tanh_plan(n: usize) -> PlanModel {
    unary_plan("tanh_f32"@, UN_KIND_TANH, n as nat)
}

/// `out = tanh(x)` on `n` elements.
pub fn tanh_f32(n: usize) -> (r: Result<Plan, MetalError>)
    requires
        n * 4 <= usize::MAX,
    ensures
        dispatch::planned(r) == Ok::<PlanModel, ErrorModel>(tanh_plan(n)),
{
    Ok(dispatch_unary(UN_KIND_TANH, "tanh_f32", n))
}

/// The plan of `silu_f32`.
pub open spec fn silu_plan(n: usize) -> PlanModel {
    unary_plan("silu_f32"@, UN_KIND_SILU, n as nat)
}

/// `out = x / (1 + exp(-x))` on `n` elements.
pub fn silu_f32(n: usize) -> (r: Result<Plan, MetalError>)
    requires
        n * 4 <= usize::MAX,
    ensures
        dispatch::planned(r) == Ok::<PlanModel, ErrorModel>(silu_plan(n)),
{
    Ok(dispatch_unary(UN_KIND_SILU, "silu_f32", n))
}

/// The plan of `abs_f32`.
pub open spec fn abs_plan(n: usize) -> PlanModel {
    unary_plan("abs_f32"@, UN_KIND_ABS, n as nat)
}

/// `out = |x|` on `n` elements.
pub fn abs_f32(n: usize) -> (r: Result<Plan, MetalError>)
    requires
        n * 4 <= usize::MAX,
    ensures
        dispatch::planned(r) == Ok::<PlanModel, ErrorModel>(abs_plan(n)),
{
    Ok(dispatch_unary(UN_KIND_ABS, "abs_f32", n))
}

/// The plan of `sqrt_f32`.
pub open spec fn sqrt_plan(n: usize) -> PlanModel {
    unary_plan("sqrt_f32"@, UN_KIND_SQRT, n as nat)
}

/// `out = sqrt(x)` on `n` elements.
pub fn sqrt_f32(n: usize) -> (r: Result<Plan, MetalError>)
    requires
        n * 4 <= usize::MAX,
    ensures
        dispatch::planned(r) == Ok::<PlanModel, ErrorModel>(sqrt_plan(n)),
{
    Ok(dispatch_unary(UN_KIND_SQRT, "sqrt_f32", n))
}

/// The plan of `exp_f32`.
pub open spec fn exp_plan(n: usize) -> PlanModel {
    unary_plan("exp_f32"@, UN_KIND_EXP, n as nat)
}

/// `out = exp(x)` on `n` elements.
pub fn exp_f32(n: usize) -> (r: Result<Plan, MetalError>)
    requires
        n * 4 <= usize::MAX,
    ensures
        dispatch::planned(r) == Ok::<PlanModel, ErrorModel>(exp_plan(n)),
{
    Ok(dispatch_unary(UN_KIND_EXP, "exp_f32", n))
}

/// The plan of `log_f32`.
pub open spec fn log_plan(n: usize) -> PlanModel {
    unary_plan("log_f32"@, UN_KIND_LOG, n as nat)
}

/// `out = ln(x)` on `n` elements.
pub fn log_f32(n: usize) -> (r: Result<Plan, MetalError>)
    requires
        n * 4 <= usize::MAX,
    ensures
        dispatch::planned(r) == Ok::<PlanModel, ErrorModel>(log_plan(n)),
{
    Ok(dispatch_unary(UN_KIND_LOG, "log_f32", n))
}

/// The plan of `add_scalar_f32`.
pub open spec fn add_scalar_plan(scalar_bits: u32, n: usize) -> PlanModel {
    scalar_plan("add_scalar_f32"@, 0, scalar_bits, n as nat)
}

/// `out = x + scalar` on `n` elements.
pub fn add_scalar_f32(scalar_bits: u32, n: usize) -> (r: Result<Plan, MetalError>)
    requires
        n * 4 <= usize::MAX,
    ensures
        dispatch::planned(r) == Ok::<PlanModel, ErrorModel>(add_scalar_plan(scalar_bits, n)),
{
    Ok(dispatch_binary_scalar(0, "add_scalar_f32", scalar_bits, n))
}

/// The plan of `sub_scalar_f32`.
pub open spec fn sub_scalar_plan(scalar_bits: u32, n: usize) -> PlanModel {
    scalar_plan("sub_scalar_f32"@, 1, scalar_bits, n as nat)
}

/// `out = x - scalar` on `n` elements.
pub fn sub_scalar_f32(scalar_bits: u32, n: usize) -> (r: Result<Plan, MetalError>)
    requires
        n * 4 <= usize::MAX,
    ensures
        dispatch::planned(r) == Ok::<PlanModel, ErrorModel>(sub_scalar_plan(scalar_bits, n)),
{
    Ok(dispatch_binary_scalar(1, "sub_scalar_f32", scalar_bits, n))
}

/// The plan of `mul_scalar_f32`.
pub open spec fn mul_scalar_plan(scalar_bits: u32, n: usize) -> PlanModel {
    scalar_plan("mul_scalar_f32"@, 2, scalar_bits, n as nat)
}

/// `out = x * scalar` on `n` elements.
pub fn mul_scalar_f32(scalar_bits: u32, n: usize) -> (r: Result<Plan, MetalError>)
    requires
        n * 4 <= usize::MAX,
    ensures
        dispatch::planned(r) == Ok::<PlanModel, ErrorModel>(mul_scalar_plan(scalar_bits, n)),
{
    Ok(dispatch_binary_scalar(2, "mul_scalar_f32", scalar_bits, n))
}

/// The plan of `div_scalar_f32`.
pub open spec fn div_scalar_plan(scalar_bits: u32, n: usize) -> PlanModel {
    scalar_plan("div_scalar_f32"@, 3, scalar_bits, n as nat)
}

/// `out = x / scalar` on `n` elements.
pub fn div_scalar_f32(scalar_bits: u32, n: usize) -> (r: Result<Plan, MetalError>)
    requires
        n * 4 <= usize::MAX,
    ensures
        dispatch::planned(r) == Ok::<PlanModel, ErrorModel>(div_scalar_plan(scalar_bits, n)),
{
    Ok(dispatch_binary_scalar(3, "div_scalar_f32", scalar_bits, n))
}

/// What the binary kernel does: the words at slot 0 are the number of elements
/// and the operation, the operands are at slots 1 and 2, the result at slot 3.
pub open spec fn binary_kernel<T>(num: Num<T>, l: Launch<T>) -> Seq<Seq<T>> {
    let kind = l.words[0][1];
    device::writing(
        l,
        3,
        |x: int| x < l.words[0][0] && x < l.threads.0,
        |x: int| scalar_op(num, kind, l.bufs[1][x], l.bufs[2][x]),
    )
}

/// What the kernel with a scalar operand does: the words at slot 0 are the
/// number of elements, the operation and the bits of the scalar; the operand is
/// at slot 1, the result at slot 2.
pub open spec fn scalar_kernel<T>(num: Num<T>, l: Launch<T>) -> Seq<Seq<T>> {
    let kind = l.words[0][1];
    device::writing(
        l,
        2,
        |x: int| x < l.words[0][0] && x < l.threads.0,
        |x: int| scalar_op(num, kind, l.bufs[1][x], (num.of_bits)(l.words[0][2])),
    )
}

/// The operations of the binary kernels by number.
pub open spec fn scalar_op<T>(num: Num<T>, kind: u32, a: T, b: T) -> T {
    if kind == 0 {
        (num.add)(a, b)
    } else if kind == 1 {
        (num.sub)(a, b)
    } else if kind == 2 {
        (num.mul)(a, b)
    } else {
        (num.div)(a, b)
    }
}

/// What the addition kernel does: the operands are at slots 0 and 1, the result
/// at slot 2, and the word at slot 3 is the number of elements.
pub open spec fn add_kernel<T>(num: Num<T>, l: Launch<T>) -> Seq<Seq<T>> {
    device::writing(
        l,
        2,
        |x: int| x < l.words[3][0] && x < l.threads.0,
        |x: int| (num.add)(l.bufs[0][x], l.bufs[1][x]),
    )
}

/// Functions of a number beside those of `Num`.
#[verifier::reject_recursive_types(T)]
pub struct Functions<T> {
    pub neg: spec_fn(T) -> T,
    pub abs: spec_fn(T) -> T,
    pub log: spec_fn(T) -> T,
}

/// The operations of the unary kernel by number.
pub open spec fn unary_op<T>(num: Num<T>, f: Functions<T>, kind: u32, x: T) -> T {
    let one_plus = (num.add)(num.one, (num.exp)((f.neg)(x)));
    if kind == 0 {
        (f.neg)(x)
    } else if kind == 1 {
        (num.max)(num.zero, x)
    } else if kind == 2 {
        (num.div)(num.one, one_plus)
    } else if kind == 3 {
        (num.tanh)(x)
    } else if kind == 4 {
        (num.div)(x, one_plus)
    } else if kind == 5 {
        (f.abs)(x)
    } else if kind == 6 {
        (num.sqrt)(x)
    } else if kind == 7 {
        (num.exp)(x)
    } else {
        (f.log)(x)
    }
}

/// What the unary kernel does: the words at slot 0 are the number of elements
/// and the operation, the operand is at slot 1, the result at slot 2.
pub open spec fn unary_kernel<T>(num: Num<T>, f: Functions<T>, l: Launch<T>) -> Seq<Seq<T>> {
    let kind = l.words[0][1];
    device::writing(
        l,
        2,
        |x: int| x < l.words[0][0] && x < l.threads.0,
        |x: int| unary_op(num, f, kind, l.bufs[1][x]),
    )
}

/// Addition gives `lhs[x] + rhs[x]` at every element.
pub proof fn law_add_computes<T>(
    n: usize,
    num: Num<T>,
    device: spec_fn(Seq<char>, Launch<T>) -> Seq<Seq<T>>,
    mem: Memory<T>,
    x: int,
)
    requires
        forall|l: Launch<T>| #[trigger] device("add_f32"@, l) == add_kernel(num, l),
        n <= u32::MAX,
        mem.args.len() == 2,
        mem.temps.len() == 2,
        mem.temps[0].len() * 4 == sum_plan(n).allocs[0].bytes,
        0 <= x < n,
    ensures
        device::answer(device, sum_plan(n), mem)[x] == (num.add)(mem.args[0][x], mem.args[1][x]),
{
    let p = sum_plan(n);
    device::lemma_single(device, p, mem);
    reveal_with_fuel(device::left, 6);
    let l = device::seen(p, p.dispatches[0], mem);
    assert(l.words[3] == seq![n as u32]);
    assert(l.bufs[0] == mem.args[0] && l.bufs[1] == mem.args[1] && l.bufs[2] == mem.temps[0]);
    assert(l.bufs.len() == 4);
}

proof fn lemma_binary<T>(
    name: Seq<char>,
    kind: u32,
    n: usize,
    num: Num<T>,
    device: spec_fn(Seq<char>, Launch<T>) -> Seq<Seq<T>>,
    mem: Memory<T>,
    x: int,
)
    requires
        forall|l: Launch<T>| #[trigger] device("binary_f32"@, l) == binary_kernel(num, l),
        n <= u32::MAX,
        mem.args.len() == 2,
        mem.temps.len() == 2,
        mem.temps[0].len() * 4 == binary_plan(name, kind, n as nat).allocs[0].bytes,
        0 <= x < n,
    ensures
        device::answer(device, binary_plan(name, kind, n as nat), mem)[x] == scalar_op(
            num,
            kind,
            mem.args[0][x],
            mem.args[1][x],
        ),
{
    let p = binary_plan(name, kind, n as nat);
    device::lemma_single(device, p, mem);
    reveal_with_fuel(device::left, 6);
    let l = device::seen(p, p.dispatches[0], mem);
    assert(l.words[0] == seq![n as u32, kind]);
    assert(l.bufs[1] == mem.args[0] && l.bufs[2] == mem.args[1] && l.bufs[3] == mem.temps[0]);
    assert(l.bufs.len() == 4);
}

proof fn lemma_scalar<T>(
    name: Seq<char>,
    kind: u32,
    bits: u32,
    n: usize,
    num: Num<T>,
    device: spec_fn(Seq<char>, Launch<T>) -> Seq<Seq<T>>,
    mem: Memory<T>,
    x: int,
)
    requires
        forall|l: Launch<T>| #[trigger] device("binary_scalar_f32"@, l) == scalar_kernel(num, l),
        n <= u32::MAX,
        mem.args.len() == 1,
        mem.temps.len() == 2,
        mem.temps[0].len() * 4 == scalar_plan(name, kind, bits, n as nat).allocs[0].bytes,
        0 <= x < n,
    ensures
        device::answer(device, scalar_plan(name, kind, bits, n as nat), mem)[x] == scalar_op(
            num,
            kind,
            mem.args[0][x],
            (num.of_bits)(bits),
        ),
{
    let p = scalar_plan(name, kind, bits, n as nat);
    device::lemma_single(device, p, mem);
    reveal_with_fuel(device::left, 6);
    let l = device::seen(p, p.dispatches[0], mem);
    assert(l.words[0] == seq![n as u32, kind, bits]);
    assert(l.bufs[1] == mem.args[0] && l.bufs[2] == mem.temps[0]);
    assert(l.bufs.len() == 3);
}

proof fn lemma_unary<T>(
    name: Seq<char>,
    kind: u32,
    n: usize,
    num: Num<T>,
    f: Functions<T>,
    device: spec_fn(Seq<char>, Launch<T>) -> Seq<Seq<T>>,
    mem: Memory<T>,
    x: int,
)
    requires
        forall|l: Launch<T>| #[trigger] device("unary_f32"@, l) == unary_kernel(num, f, l),
        n <= u32::MAX,
        mem.args.len() == 1,
        mem.temps.len() == 2,
        mem.temps[0].len() * 4 == unary_plan(name, kind, n as nat).allocs[0].bytes,
        0 <= x < n,
    ensures
        device::answer(device, unary_plan(name, kind, n as nat), mem)[x] == unary_op(
            num,
            f,
            kind,
            mem.args[0][x],
        ),
{
    let p = unary_plan(name, kind, n as nat);
    device::lemma_single(device, p, mem);
    reveal_with_fuel(device::left, 6);
    let l = device::seen(p, p.dispatches[0], mem);
    assert(l.words[0] == seq![n as u32, kind]);
    assert(l.bufs[1] == mem.args[0] && l.bufs[2] == mem.temps[0]);
    assert(l.bufs.len() == 3);
}

/// Subtraction, multiplication and division give `lhs[x] - rhs[x]`,
/// `lhs[x] * rhs[x]` and `lhs[x] / rhs[x]` at every element.
pub proof fn law_binary_computes<T>(
    n: usize,
    num: Num<T>,
    device: spec_fn(Seq<char>, Launch<T>) -> Seq<Seq<T>>,
    mem: Memory<T>,
    x: int,
)
    requires
        forall|l: Launch<T>| #[trigger] device("binary_f32"@, l) == binary_kernel(num, l),
        n <= u32::MAX,
        mem.args.len() == 2,
        mem.temps.len() == 2,
        mem.temps[0].len() == n,
        0 <= x < n,
    ensures
        ({
            let a = mem.args[0][x];
            let b = mem.args[1][x];
            &&& device::answer(device, sub_plan(n), mem)[x] == (num.sub)(a, b)
            &&& device::answer(device, mul_plan(n), mem)[x] == (num.mul)(a, b)
            &&& device::answer(device, div_plan(n), mem)[x] == (num.div)(a, b)
        }),
        sub_plan(n).allocs[0].bytes == n * 4,
        mul_plan(n).allocs[0].bytes == n * 4,
        div_plan(n).allocs[0].bytes == n * 4,
{
    lemma_binary("sub_f32"@, BIN_KIND_SUB, n, num, device, mem, x);
    lemma_binary("mul_f32"@, BIN_KIND_MUL, n, num, device, mem, x);
    lemma_binary("div_f32"@, BIN_KIND_DIV, n, num, device, mem, x);
}

/// With a scalar operand `s` the operations give `a[x] + s`, `a[x] - s`,
/// `a[x] * s` and `a[x] / s` at every element.
pub proof fn law_scalar_computes<T>(
    bits: u32,
    n: usize,
    num: Num<T>,
    device: spec_fn(Seq<char>, Launch<T>) -> Seq<Seq<T>>,
    mem: Memory<T>,
    x: int,
)
    requires
        forall|l: Launch<T>| #[trigger] device("binary_scalar_f32"@, l) == scalar_kernel(num, l),
        n <= u32::MAX,
        mem.args.len() == 1,
        mem.temps.len() == 2,
        mem.temps[0].len() == n,
        0 <= x < n,
    ensures
        ({
            let a = mem.args[0][x];
            let s = (num.of_bits)(bits);
            &&& device::answer(device, add_scalar_plan(bits, n), mem)[x] == (num.add)(a, s)
            &&& device::answer(device, sub_scalar_plan(bits, n), mem)[x] == (num.sub)(a, s)
            &&& device::answer(device, mul_scalar_plan(bits, n), mem)[x] == (num.mul)(a, s)
            &&& device::answer(device, div_scalar_plan(bits, n), mem)[x] == (num.div)(a, s)
        }),
        add_scalar_plan(bits, n).allocs[0].bytes == n * 4,
        sub_scalar_plan(bits, n).allocs[0].bytes == n * 4,
        mul_scalar_plan(bits, n).allocs[0].bytes == n * 4,
        div_scalar_plan(bits, n).allocs[0].bytes == n * 4,
{
    lemma_scalar("add_scalar_f32"@, 0, bits, n, num, device, mem, x);
    lemma_scalar("sub_scalar_f32"@, 1, bits, n, num, device, mem, x);
    lemma_scalar("mul_scalar_f32"@, 2, bits, n, num, device, mem, x);
    lemma_scalar("div_scalar_f32"@, 3, bits, n, num, device, mem, x);
}

/// The unary operations give `-a`, `max(0, a)`, `1 / (1 + exp(-a))`, `tanh(a)`,
/// `a / (1 + exp(-a))`, `|a|`, `sqrt(a)`, `exp(a)` and `log(a)` at every
/// element.
pub proof fn law_unary_computes<T>(
    n: usize,
    num: Num<T>,
    f: Functions<T>,
    device: spec_fn(Seq<char>, Launch<T>) -> Seq<Seq<T>>,
    mem: Memory<T>,
    x: int,
)
    requires
        forall|l: Launch<T>| #[trigger] device("unary_f32"@, l) == unary_kernel(num, f, l),
        n <= u32::MAX,
        mem.args.len() == 1,
        mem.temps.len() == 2,
        mem.temps[0].len() == n,
        0 <= x < n,
    ensures
        ({
            let a = mem.args[0][x];
            let one_plus = (num.add)(num.one, (num.exp)((f.neg)(a)));
            &&& device::answer(device, neg_plan(n), mem)[x] == (f.neg)(a)
            &&& device::answer(device, relu_plan(n), mem)[x] == (num.max)(num.zero, a)
            &&& device::answer(device, sigmoid_plan(n), mem)[x] == (num.div)(num.one, one_plus)
            &&& device::answer(device, tanh_plan(n), mem)[x] == (num.tanh)(a)
            &&& device::answer(device, silu_plan(n), mem)[x] == (num.div)(a, one_plus)
            &&& device::answer(device, abs_plan(n), mem)[x] == (f.abs)(a)
            &&& device::answer(device, sqrt_plan(n), mem)[x] == (num.sqrt)(a)
            &&& device::answer(device, exp_plan(n), mem)[x] == (num.exp)(a)
            &&& device::answer(device, log_plan(n), mem)[x] == (f.log)(a)
        }),
{
    lemma_unary("neg_f32"@, UN_KIND_NEG, n, num, f, device, mem, x);
    lemma_unary("relu_f32"@, UN_KIND_RELU, n, num, f, device, mem, x);
    lemma_unary("sigmoid_f32"@, UN_KIND_SIGMOID, n, num, f, device, mem, x);
    lemma_unary("tanh_f32"@, UN_KIND_TANH, n, num, f, device, mem, x);
    lemma_unary("silu_f32"@, UN_KIND_SILU, n, num, f, device, mem, x);
    lemma_unary("abs_f32"@, UN_KIND_ABS, n, num, f, device, mem, x);
    lemma_unary("sqrt_f32"@, UN_KIND_SQRT, n, num, f, device, mem, x);
    lemma_unary("exp_f32"@, UN_KIND_EXP, n, num, f, device, mem, x);
    lemma_unary("log_f32"@, UN_KIND_LOG, n, num, f, device, mem, x);
}

} // verus!
