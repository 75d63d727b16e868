//! What the matrix-vector kernels do to the buffers.
//!
//! How a row of packed weights is multiplied with a vector is left open: `row`
//! gives, for a vector, packed weights of rows of `k` entries and a row, their
//! product.
use crate::metal::decode_value;
use crate::metal::device;
use crate::metal::device::{Launch, Memory};
use crate::metal::dispatch;
use crate::metal::dispatch::{BindingModel, DispatchModel, PlanModel};
use crate::metal::sgemv;
use crate::nn::meaning::Num;
use vstd::prelude::*;

verus! {

/// Which rows a launch reaches.
pub enum Reach {
    /// Each thread takes a row.
    Thread,
    /// Each threadgroup of `width` threads takes `rows` rows.
    Group { rows: int, width: nat },
}

/// Row `r` is reached.
pub open spec fn reached<T>(how: Reach, l: Launch<T>, r: int) -> bool {
    match how {
        Reach::Thread => r < l.threads.0,
        Reach::Group { rows, width } => r / rows < l.groups.0 && l.width == width,
    }
}

/// What a matrix-vector kernel does: the vector is at slot 0, the weights at
/// slot 1, the result at slot 2, and the words at slot 3 are the numbers of
/// columns and rows. Where `onto`, the product is added to what is there.
pub open spec fn rows_kernel<T>(
    num: Num<T>,
    row: spec_fn(spec_fn(int) -> T, Seq<T>, nat, int) -> T,
    how: Reach,
    onto: bool,
    l: Launch<T>,
) -> Seq<Seq<T>> {
    let k = l.words[3][0] as nat;
    device::writing(
        l,
        2,
        |r: int| r < l.words[3][1] && reached(how, l, r),
        |r: int|
            {
                let v = row(|i: int| l.bufs[0][i], l.bufs[1], k, r);
                if onto {
                    (num.add)(l.bufs[2][r], v)
                } else {
                    v
                }
            },
    )
}

/// A launch of a matrix-vector kernel on the caller's vector, weights and result.
proof fn lemma_rows<T>(
    name: Seq<char>,
    d: DispatchModel,
    k: usize,
    n: usize,
    num: Num<T>,
    row: spec_fn(spec_fn(int) -> T, Seq<T>, nat, int) -> T,
    how: Reach,
    onto: bool,
    device: spec_fn(Seq<char>, Launch<T>) -> Seq<Seq<T>>,
    mem: Memory<T>,
    r: int,
)
    requires
        forall|l: Launch<T>| #[trigger] device(name, l) == rows_kernel(num, row, how, onto, l),
        d.entry == name,
        d.bindings == sgemv::sgemv(name, k, n).bindings,
        k <= u32::MAX && n <= u32::MAX,
        mem.args.len() == 3,
        mem.args[2].len() >= n,
        0 <= r < n,
        reached(how, device::seen(dispatch::only(d), d, mem), r),
    ensures
        ({
            let v = row(|i: int| mem.args[0][i], mem.args[1], k as nat, r);
            device::carried_out(device, dispatch::only(d), mem).args[2][r] == if onto {
                (num.add)(mem.args[2][r], v)
            } else {
                v
            }
        }),
{
    let p = dispatch::only(d);
    device::lemma_single(device, p, mem);
    reveal_with_fuel(device::left, 6);
    let l = device::seen(p, p.dispatches[0], mem);
    assert(d.bindings.len() == 4);
    assert(d.bindings[0] == BindingModel::Arg(0) && d.bindings[1] == BindingModel::Arg(1)
        && d.bindings[2] == BindingModel::Arg(2) && d.bindings[3] == BindingModel::Words(
        seq![k as u32, n as u32],
    ));
    assert(l.words[3] == seq![k as u32, n as u32]);
    assert(l.bufs[0] == mem.args[0] && l.bufs[1] == mem.args[1] && l.bufs[2] == mem.args[2]);
    assert(l.bufs.len() == 4);
}

/// Row `r` of `n` belongs to one of the simdgroups.
proof fn lemma_in_groups(n: usize, rows: nat, width: nat, r: int)
    requires
        rows > 0,
        width > 0,
        0 <= r < n,
    ensures
        r / (rows as int) < sgemv::simdgroups(n, rows),
        dispatch::ceil_div(width * sgemv::simdgroups(n, rows), width) == sgemv::simdgroups(
            n,
            rows,
        ),
{
    dispatch::law_ceil_div(n as nat, rows);
    decode_value::lemma_groups(sgemv::simdgroups(n, rows), width);
    let g = sgemv::simdgroups(n, rows) as int;
    let w = rows as int;
    assert(r / w < g) by (nonlinear_arith)
        requires
            0 <= r < n,
            g * w >= n,
            w > 0,
    ;
}

/// Every form of the product with 4-bit weights gives, at each row, the product
/// of the row and the vector, and the one that adds it to the result does so:
/// no row is left without a thread.
pub proof fn law_q4_products_compute<T>(
    k: usize,
    n: usize,
    num: Num<T>,
    row: spec_fn(spec_fn(int) -> T, Seq<T>, nat, int) -> T,
    device: spec_fn(Seq<char>, Launch<T>) -> Seq<Seq<T>>,
    mem: Memory<T>,
    r: int,
)
    requires
        forall|l: Launch<T>| #[trigger]
            device("sgemv_q4_k_f32"@, l) == rows_kernel(
                num,
                row,
                Reach::Thread,
                false,
                l,
            ),
        forall|l: Launch<T>| #[trigger]
            device("sgemv_q4_k_f32_simdcoop_nr2"@, l) == rows_kernel(
                num,
                row,
                Reach::Group { rows: 2, width: 32 },
                false,
                l,
            ),
        forall|l: Launch<T>| #[trigger]
            device("sgemv_q4_k_f32_lcpp_nr2"@, l) == rows_kernel(
                num,
                row,
                Reach::Group { rows: 2, width: 32 },
                false,
                l,
            ),
        forall|l: Launch<T>| #[trigger]
            device("sgemv_q4_k_f32_simdcoop"@, l) == rows_kernel(
                num,
                row,
                Reach::Group { rows: 1, width: 32 },
                false,
                l,
            ),
        forall|l: Launch<T>| #[trigger]
            device("sgemv_q4_k_f32_simdcoop_residual"@, l) == rows_kernel(
                num,
                row,
                Reach::Group { rows: 1, width: 32 },
                true,
                l,
            ),
        forall|l: Launch<T>| #[trigger]
            device("sgemv_q4_k_f32_lcpp_nsg2"@, l) == rows_kernel(
                num,
                row,
                Reach::Group { rows: 4, width: 64 },
                false,
                l,
            ),
        forall|l: Launch<T>| #[trigger]
            device("sgemv_q4_k_f32_quadcoop"@, l) == rows_kernel(
                num,
                row,
                Reach::Group { rows: 4, width: 32 },
                false,
                l,
            ),
        k <= u32::MAX && n <= u32::MAX,
        mem.args.len() == 3,
        mem.args[2].len() >= n,
        0 <= r < n,
    ensures
        ({
            let v = row(|i: int| mem.args[0][i], mem.args[1], k as nat, r);
            &&& device::carried_out(device, sgemv::sgemv_q4_k_into_plan(k, n), mem).args[2][r] == v
            &&& device::carried_out(device, sgemv::sgemv_q4_k_simdcoop_nr2_into_plan(k, n), mem).args[2][r] == v
            &&& device::carried_out(device, sgemv::sgemv_q4_k_lcpp_nr2_into_plan(k, n), mem).args[2][r] == v
            &&& device::carried_out(device, sgemv::sgemv_q4_k_simdcoop_into_plan(k, n), mem).args[2][r] == v
            &&& device::carried_out(device, sgemv::sgemv_q4_k_lcpp_nsg2_into_plan(k, n), mem).args[2][r] == v
            &&& device::carried_out(device, sgemv::sgemv_q4_k_quadcoop_into_plan(k, n), mem).args[2][r] == v
            &&& device::carried_out(
                device,
                sgemv::sgemv_q4_k_simdcoop_residual_into_plan(k, n),
                mem,
            ).args[2][r] == (num.add)(mem.args[2][r], v)
        }),
{
    lemma_in_groups(n, 1, 32, r);
    lemma_in_groups(n, 2, 32, r);
    lemma_in_groups(n, 4, 32, r);
    decode_value::lemma_groups(n as nat, 32);
    lemma_rows(
        "sgemv_q4_k_f32"@,
        sgemv::sgemv_q4_k_into_plan(k, n).dispatches[0],
        k,
        n,
        num,
        row,
        Reach::Thread,
        false,
        device,
        mem,
        r,
    );
    lemma_rows(
        "sgemv_q4_k_f32_simdcoop_nr2"@,
        sgemv::sgemv_q4_k_simdcoop_nr2_into_plan(k, n).dispatches[0],
        k,
        n,
        num,
        row,
        Reach::Group { rows: 2, width: 32 },
        false,
        device,
        mem,
        r,
    );
    lemma_rows(
        "sgemv_q4_k_f32_lcpp_nr2"@,
        sgemv::sgemv_q4_k_lcpp_nr2_into_plan(k, n).dispatches[0],
        k,
        n,
        num,
        row,
        Reach::Group { rows: 2, width: 32 },
        false,
        device,
        mem,
        r,
    );
    lemma_rows(
        "sgemv_q4_k_f32_simdcoop"@,
        sgemv::sgemv_q4_k_simdcoop_into_plan(k, n).dispatches[0],
        k,
        n,
        num,
        row,
        Reach::Group { rows: 1, width: 32 },
        false,
        device,
        mem,
        r,
    );
    lemma_rows(
        "sgemv_q4_k_f32_simdcoop_residual"@,
        sgemv::sgemv_q4_k_simdcoop_residual_into_plan(k, n).dispatches[0],
        k,
        n,
        num,
        row,
        Reach::Group { rows: 1, width: 32 },
        true,
        device,
        mem,
        r,
    );
    lemma_rows(
        "sgemv_q4_k_f32_quadcoop"@,
        sgemv::sgemv_q4_k_quadcoop_into_plan(k, n).dispatches[0],
        k,
        n,
        num,
        row,
        Reach::Group { rows: 4, width: 32 },
        false,
        device,
        mem,
        r,
    );
    if n % 4 != 0 {
        lemma_rows(
            "sgemv_q4_k_f32_lcpp_nr2"@,
            sgemv::sgemv_q4_k_lcpp_nsg2_into_plan(k, n).dispatches[0],
            k,
            n,
            num,
            row,
            Reach::Group { rows: 2, width: 32 },
            false,
            device,
            mem,
            r,
        );
    } else {
        lemma_rows(
            "sgemv_q4_k_f32_lcpp_nsg2"@,
            sgemv::sgemv_q4_k_lcpp_nsg2_into_plan(k, n).dispatches[0],
            k,
            n,
            num,
            row,
            Reach::Group { rows: 4, width: 64 },
            false,
            device,
            mem,
            r,
        );
    }
}

/// Every form of the product with 6-bit weights gives, at each row, the product
/// of the row and the vector, and the one that adds it to the result does so:
/// no row is left without a thread.
pub proof fn law_q6_products_compute<T>(
    k: usize,
    n: usize,
    num: Num<T>,
    row: spec_fn(spec_fn(int) -> T, Seq<T>, nat, int) -> T,
    device: spec_fn(Seq<char>, Launch<T>) -> Seq<Seq<T>>,
    mem: Memory<T>,
    r: int,
)
    requires
        forall|l: Launch<T>| #[trigger]
            device("sgemv_q6_k_f32"@, l) == rows_kernel(
                num,
                row,
                Reach::Thread,
                false,
                l,
            ),
        forall|l: Launch<T>| #[trigger]
            device("sgemv_q6_k_f32_simdcoop_nr2"@, l) == rows_kernel(
                num,
                row,
                Reach::Group { rows: 2, width: 32 },
                false,
                l,
            ),
        forall|l: Launch<T>| #[trigger]
            device("sgemv_q6_k_f32_lcpp_nr2"@, l) == rows_kernel(
                num,
                row,
                Reach::Group { rows: 2, width: 32 },
                false,
                l,
            ),
        forall|l: Launch<T>| #[trigger]
            device("sgemv_q6_k_f32_simdcoop"@, l) == rows_kernel(
                num,
                row,
                Reach::Group { rows: 1, width: 32 },
                false,
                l,
            ),
        forall|l: Launch<T>| #[trigger]
            device("sgemv_q6_k_f32_simdcoop_residual"@, l) == rows_kernel(
                num,
                row,
                Reach::Group { rows: 1, width: 32 },
                true,
                l,
            ),
        forall|l: Launch<T>| #[trigger]
            device("sgemv_q6_k_f32_lcpp_nsg2"@, l) == rows_kernel(
                num,
                row,
                Reach::Group { rows: 4, width: 64 },
                false,
                l,
            ),
        k <= u32::MAX && n <= u32::MAX,
        mem.args.len() == 3,
        mem.args[2].len() >= n,
        0 <= r < n,
    ensures
        ({
            let v = row(|i: int| mem.args[0][i], mem.args[1], k as nat, r);
            &&& device::carried_out(device, sgemv::sgemv_q6_k_into_plan(k, n), mem).args[2][r] == v
            &&& device::carried_out(device, sgemv::sgemv_q6_k_simdcoop_nr2_into_plan(k, n), mem).args[2][r] == v
            &&& device::carried_out(device, sgemv::sgemv_q6_k_lcpp_nr2_into_plan(k, n), mem).args[2][r] == v
            &&& device::carried_out(device, sgemv::sgemv_q6_k_simdcoop_into_plan(k, n), mem).args[2][r] == v
            &&& device::carried_out(device, sgemv::sgemv_q6_k_lcpp_nsg2_into_plan(k, n), mem).args[2][r] == v
            &&& device::carried_out(
                device,
                sgemv::sgemv_q6_k_simdcoop_residual_into_plan(k, n),
                mem,
            ).args[2][r] == (num.add)(mem.args[2][r], v)
        }),
{
    lemma_in_groups(n, 1, 32, r);
    lemma_in_groups(n, 2, 32, r);
    lemma_in_groups(n, 4, 32, r);
    decode_value::lemma_groups(n as nat, 32);
    lemma_rows(
        "sgemv_q6_k_f32"@,
        sgemv::sgemv_q6_k_into_plan(k, n).dispatches[0],
        k,
        n,
        num,
        row,
        Reach::Thread,
        false,
        device,
        mem,
        r,
    );
    lemma_rows(
        "sgemv_q6_k_f32_simdcoop_nr2"@,
        sgemv::sgemv_q6_k_simdcoop_nr2_into_plan(k, n).dispatches[0],
        k,
        n,
        num,
        row,
        Reach::Group { rows: 2, width: 32 },
        false,
        device,
        mem,
        r,
    );
    lemma_rows(
        "sgemv_q6_k_f32_lcpp_nr2"@,
        sgemv::sgemv_q6_k_lcpp_nr2_into_plan(k, n).dispatches[0],
        k,
        n,
        num,
        row,
        Reach::Group { rows: 2, width: 32 },
        false,
        device,
        mem,
        r,
    );
    lemma_rows(
        "sgemv_q6_k_f32_simdcoop"@,
        sgemv::sgemv_q6_k_simdcoop_into_plan(k, n).dispatches[0],
        k,
        n,
        num,
        row,
        Reach::Group { rows: 1, width: 32 },
        false,
        device,
        mem,
        r,
    );
    lemma_rows(
        "sgemv_q6_k_f32_simdcoop_residual"@,
        sgemv::sgemv_q6_k_simdcoop_residual_into_plan(k, n).dispatches[0],
        k,
        n,
        num,
        row,
        Reach::Group { rows: 1, width: 32 },
        true,
        device,
        mem,
        r,
    );
    if n % 4 != 0 {
        lemma_rows(
            "sgemv_q6_k_f32_lcpp_nr2"@,
            sgemv::sgemv_q6_k_lcpp_nsg2_into_plan(k, n).dispatches[0],
            k,
            n,
            num,
            row,
            Reach::Group { rows: 2, width: 32 },
            false,
            device,
            mem,
            r,
        );
    } else {
        lemma_rows(
            "sgemv_q6_k_f32_lcpp_nsg2"@,
            sgemv::sgemv_q6_k_lcpp_nsg2_into_plan(k, n).dispatches[0],
            k,
            n,
            num,
            row,
            Reach::Group { rows: 4, width: 64 },
            false,
            device,
            mem,
            r,
        );
    }
}

/// The products with 5-bit and 8-bit weights give, at each row, the product of
/// the row and the vector.
pub proof fn law_q5_and_q8_products_compute<T>(
    k: usize,
    n: usize,
    num: Num<T>,
    row: spec_fn(spec_fn(int) -> T, Seq<T>, nat, int) -> T,
    device: spec_fn(Seq<char>, Launch<T>) -> Seq<Seq<T>>,
    mem: Memory<T>,
    r: int,
)
    requires
        forall|l: Launch<T>| #[trigger]
            device("sgemv_q5_k_f32_lcpp_nsg2"@, l) == rows_kernel(
                num,
                row,
                Reach::Group { rows: 2, width: 64 },
                false,
                l,
            ),
        forall|l: Launch<T>| #[trigger]
            device("sgemv_q8_0_f32_lcpp_nsg2"@, l) == rows_kernel(
                num,
                row,
                Reach::Group { rows: 4, width: 64 },
                false,
                l,
            ),
        k <= u32::MAX && n <= u32::MAX,
        mem.args.len() == 3,
        mem.args[2].len() >= n,
        0 <= r < n,
    ensures
        ({
            let v = row(|i: int| mem.args[0][i], mem.args[1], k as nat, r);
            &&& device::carried_out(
                device,
                sgemv::sgemv_q5_k_lcpp_nsg2_into_plan(k, n),
                mem,
            ).args[2][r] == v
            &&& device::carried_out(
                device,
                sgemv::sgemv_q8_0_lcpp_nsg2_into_plan(k, n),
                mem,
            ).args[2][r] == v
        }),
{
    lemma_in_groups(n, 2, 64, r);
    lemma_in_groups(n, 4, 64, r);
    lemma_rows(
        "sgemv_q5_k_f32_lcpp_nsg2"@,
        sgemv::sgemv_q5_k_lcpp_nsg2_into_plan(k, n).dispatches[0],
        k,
        n,
        num,
        row,
        Reach::Group { rows: 2, width: 64 },
        false,
        device,
        mem,
        r,
    );
    lemma_rows(
        "sgemv_q8_0_f32_lcpp_nsg2"@,
        sgemv::sgemv_q8_0_lcpp_nsg2_into_plan(k, n).dispatches[0],
        k,
        n,
        num,
        row,
        Reach::Group { rows: 4, width: 64 },
        false,
        device,
        mem,
        r,
    );
}

/// The products into a fresh buffer: with single-precision weights of shape
/// `[k, n]` entry `r` is the sum over `l` of `x[l] * w[l * n + r]`; with packed
/// weights it is the product of row `r`.
pub proof fn law_fresh_products_compute<T>(
    k: usize,
    n: usize,
    num: Num<T>,
    row4: spec_fn(spec_fn(int) -> T, Seq<T>, nat, int) -> T,
    row6: spec_fn(spec_fn(int) -> T, Seq<T>, nat, int) -> T,
    device: spec_fn(Seq<char>, Launch<T>) -> Seq<Seq<T>>,
    mem: Memory<T>,
    r: int,
)
    requires
        forall|l: Launch<T>| #[trigger]
            device("sgemv_f32_simd"@, l) == rows_kernel(
                num,
                |x: spec_fn(int) -> T, w: Seq<T>, k: nat, r: int|
                    num.sum(
                        k as int,
                        |i: int| (num.mul)(x(i), w[i * l.words[3][1] + r]),
                    ),
                Reach::Thread,
                false,
                l,
            ),
        forall|l: Launch<T>| #[trigger]
            device("sgemv_q4_k_f32"@, l) == rows_kernel(num, row4, Reach::Thread, false, l),
        forall|l: Launch<T>| #[trigger]
            device("sgemv_q6_k_f32"@, l) == rows_kernel(num, row6, Reach::Thread, false, l),
        k <= u32::MAX && n <= u32::MAX,
        mem.args.len() == 2,
        mem.temps.len() == 2,
        mem.temps[0].len() * 4 == sgemv::sgemv_simd_plan(k, n).allocs[0].bytes,
        0 <= r < n,
    ensures
        device::answer(device, sgemv::sgemv_simd_plan(k, n), mem)[r] == num.sum(
            k as int,
            |i: int| (num.mul)(mem.args[0][i], mem.args[1][i * n + r]),
        ),
        device::answer(device, sgemv::sgemv_q4_k_plan(k, n), mem)[r] == row4(
            |i: int| mem.args[0][i],
            mem.args[1],
            k as nat,
            r,
        ),
        device::answer(device, sgemv::sgemv_q6_k_plan(k, n), mem)[r] == row6(
            |i: int| mem.args[0][i],
            mem.args[1],
            k as nat,
            r,
        ),
        sgemv::sgemv_q4_k_plan(k, n).allocs[0].bytes == n * 4,
        sgemv::sgemv_q6_k_plan(k, n).allocs[0].bytes == n * 4,
{
    let p = sgemv::sgemv_simd_plan(k, n);
    let p4 = sgemv::sgemv_q4_k_plan(k, n);
    let p6 = sgemv::sgemv_q6_k_plan(k, n);
    device::lemma_single(device, p, mem);
    device::lemma_single(device, p4, mem);
    device::lemma_single(device, p6, mem);
    reveal_with_fuel(device::left, 6);
    let l = device::seen(p, p.dispatches[0], mem);
    let l4 = device::seen(p4, p4.dispatches[0], mem);
    let l6 = device::seen(p6, p6.dispatches[0], mem);
    assert(l.words[3] == seq![k as u32, n as u32]);
    assert(l4.words[3] == seq![k as u32, n as u32]);
    assert(l6.words[3] == seq![k as u32, n as u32]);
    assert(l.bufs[0] == mem.args[0] && l.bufs[1] == mem.args[1] && l.bufs[2] == mem.temps[0]);
    assert(l4.bufs[0] == mem.args[0] && l4.bufs[1] == mem.args[1] && l4.bufs[2] == mem.temps[0]);
    assert(l6.bufs[0] == mem.args[0] && l6.bufs[1] == mem.args[1] && l6.bufs[2] == mem.temps[0]);
    assert(l.bufs.len() == 4 && l4.bufs.len() == 4 && l6.bufs.len() == 4);
    let x = |i: int| l.bufs[0][i];
    let f = |i: int| (num.mul)(x(i), mem.args[1][i * l.words[3][1] + r]);
    let g = |i: int| (num.mul)(mem.args[0][i], mem.args[1][i * n + r]);
    assert(f =~= g);
}

/// The products with weights packed block by block give, at each row, `column`
/// of the vector, the packed weights, the sizes and the row.
pub proof fn law_transposed_products_compute<T>(
    k: usize,
    n: usize,
    num: Num<T>,
    column4: spec_fn(spec_fn(int) -> T, Seq<T>, nat, nat, int) -> T,
    column6: spec_fn(spec_fn(int) -> T, Seq<T>, nat, nat, int) -> T,
    device: spec_fn(Seq<char>, Launch<T>) -> Seq<Seq<T>>,
    mem: Memory<T>,
    r: int,
)
    requires
        forall|l: Launch<T>| #[trigger]
            device("sgemv_q4_k_f32_transposed"@, l) == rows_kernel(
                num,
                |x: spec_fn(int) -> T, w: Seq<T>, k: nat, r: int|
                    column4(x, w, k, l.words[3][1] as nat, r),
                Reach::Thread,
                false,
                l,
            ),
        forall|l: Launch<T>| #[trigger]
            device("sgemv_q6_k_f32_transposed"@, l) == rows_kernel(
                num,
                |x: spec_fn(int) -> T, w: Seq<T>, k: nat, r: int|
                    column6(x, w, k, l.words[3][1] as nat, r),
                Reach::Thread,
                false,
                l,
            ),
        k <= u32::MAX && n <= u32::MAX,
        mem.args.len() == 3,
        mem.args[2].len() >= n,
        mem.temps.len() == 1,
        0 <= r < n,
    ensures
        device::carried_out(device, sgemv::sgemv_q4_k_transposed_into_plan(k, n), mem).args[2][r]
            == column4(|i: int| mem.args[0][i], mem.args[1], k as nat, n as nat, r),
        device::carried_out(device, sgemv::sgemv_q6_k_transposed_into_plan(k, n), mem).args[2][r]
            == column6(|i: int| mem.args[0][i], mem.args[1], k as nat, n as nat, r),
{
    let p4 = sgemv::sgemv_q4_k_transposed_into_plan(k, n);
    let p6 = sgemv::sgemv_q6_k_transposed_into_plan(k, n);
    device::lemma_single(device, p4, mem);
    device::lemma_single(device, p6, mem);
    reveal_with_fuel(device::left, 6);
    let l4 = device::seen(p4, p4.dispatches[0], mem);
    let l6 = device::seen(p6, p6.dispatches[0], mem);
    assert(l4.words[3] == seq![k as u32, n as u32]);
    assert(l6.words[3] == seq![k as u32, n as u32]);
    assert(l4.bufs[0] == mem.args[0] && l4.bufs[1] == mem.args[1] && l4.bufs[2] == mem.args[2]);
    assert(l6.bufs[0] == mem.args[0] && l6.bufs[1] == mem.args[1] && l6.bufs[2] == mem.args[2]);
    assert(l4.bufs.len() == 4 && l6.bufs.len() == 4);
}

/// What a product of several vectors does: as `rows_kernel`, with the number of
/// vectors as third word, and result `b` behind result `b - 1`. Either each
/// thread takes a row and a vector, or each threadgroup takes two rows of one
/// vector, all pairs of the first vector first.
pub open spec fn batch_kernel<T>(
    row: spec_fn(spec_fn(int) -> T, Seq<T>, nat, int) -> T,
    by_pairs: bool,
    l: Launch<T>,
) -> Seq<Seq<T>> {
    let k = l.words[3][0] as nat;
    let n = l.words[3][1] as int;
    let vectors = l.words[3][2];
    let pairs = (n + 1) / 2;
    device::writing(
        l,
        2,
        |x: int|
            x / n < vectors && if by_pairs {
                x / n * pairs + x % n / 2 < l.groups.0 && l.width == 32
            } else {
                x % n < l.threads.0 && x / n < l.threads.1
            },
        |x: int| row(|i: int| l.bufs[0][x / n * k + i], l.bufs[1], k, x % n),
    )
}

proof fn lemma_batch<T>(
    name: Seq<char>,
    d: DispatchModel,
    k: usize,
    n: usize,
    b: usize,
    row: spec_fn(spec_fn(int) -> T, Seq<T>, nat, int) -> T,
    by_pairs: bool,
    device: spec_fn(Seq<char>, Launch<T>) -> Seq<Seq<T>>,
    mem: Memory<T>,
    v: int,
    r: int,
)
    requires
        forall|l: Launch<T>| #[trigger] device(name, l) == batch_kernel(row, by_pairs, l),
        d.entry == name,
        d.bindings == sgemv::sgemv_batch(name, k, n, b).bindings,
        k <= u32::MAX && n <= u32::MAX && b <= u32::MAX,
        mem.args.len() == 3,
        mem.args[2].len() >= b * n,
        0 <= v < b,
        0 <= r < n,
        ({
            let l = device::seen(dispatch::only(d), d, mem);
            if by_pairs {
                v * ((n + 1) / 2) + r / 2 < l.groups.0 && l.width == 32
            } else {
                r < l.threads.0 && v < l.threads.1
            }
        }),
    ensures
        device::carried_out(device, dispatch::only(d), mem).args[2][v * n + r] == row(
            |i: int| mem.args[0][v * k + i],
            mem.args[1],
            k as nat,
            r,
        ),
{
    let p = dispatch::only(d);
    device::lemma_single(device, p, mem);
    reveal_with_fuel(device::left, 6);
    let l = device::seen(p, p.dispatches[0], mem);
    let w = seq![k as u32, n as u32, b as u32];
    assert(d.bindings.len() == 4);
    assert(d.bindings[0] == BindingModel::Arg(0) && d.bindings[1] == BindingModel::Arg(1)
        && d.bindings[2] == BindingModel::Arg(2) && d.bindings[3] == BindingModel::Words(w));
    assert(l.words[3] == w);
    assert(l.bufs[0] == mem.args[0] && l.bufs[1] == mem.args[1] && l.bufs[2] == mem.args[2]);
    assert(l.bufs.len() == 4);
    decode_value::lemma_row_of(v, n as int, r, b as int);
    let x = v * n + r;
    let f = |i: int| mem.args[0][x / (n as int) * (k as nat) + i];
    let g = |i: int| mem.args[0][v * k + i];
    assert(f =~= g);
}

/// The products of several vectors give, at row `r` of result `v`, the product of
/// row `r` and vector `v`.
pub proof fn law_batch_products_compute<T>(
    k: usize,
    n: usize,
    b: usize,
    row4: spec_fn(spec_fn(int) -> T, Seq<T>, nat, int) -> T,
    row6: spec_fn(spec_fn(int) -> T, Seq<T>, nat, int) -> T,
    device: spec_fn(Seq<char>, Launch<T>) -> Seq<Seq<T>>,
    mem: Memory<T>,
    v: int,
    r: int,
)
    requires
        forall|l: Launch<T>| #[trigger]
            device("sgemv_q4_k_f32_batch"@, l) == batch_kernel(row4, false, l),
        forall|l: Launch<T>| #[trigger]
            device("sgemv_q6_k_f32_batch"@, l) == batch_kernel(row6, false, l),
        forall|l: Launch<T>| #[trigger]
            device("sgemv_q4_k_f32_lcpp_nr2_batch"@, l) == batch_kernel(row4, true, l),
        forall|l: Launch<T>| #[trigger]
            device("sgemv_q6_k_f32_lcpp_nr2_batch"@, l) == batch_kernel(row6, true, l),
        k <= u32::MAX && n <= u32::MAX && b <= u32::MAX,
        mem.args.len() == 3,
        mem.args[2].len() >= b * n,
        0 <= v < b,
        0 <= r < n,
    ensures
        ({
            let x = |i: int| mem.args[0][v * k + i];
            let y4 = row4(x, mem.args[1], k as nat, r);
            let y6 = row6(x, mem.args[1], k as nat, r);
            &&& device::carried_out(device, sgemv::sgemv_q4_k_batch_into_plan(k, n, b), mem).args[2][v
                * n + r] == y4
            &&& device::carried_out(device, sgemv::sgemv_q6_k_batch_into_plan(k, n, b), mem).args[2][v
                * n + r] == y6
            &&& device::carried_out(
                device,
                sgemv::sgemv_q4_k_lcpp_nr2_batch_into_plan(k, n, b),
                mem,
            ).args[2][v * n + r] == y4
            &&& device::carried_out(
                device,
                sgemv::sgemv_q6_k_lcpp_nr2_batch_into_plan(k, n, b),
                mem,
            ).args[2][v * n + r] == y6
        }),
{
    let pairs = sgemv::simdgroups(n, 2);
    assert(pairs == (n + 1) / 2);
    assert(pairs * b >= 0) by (nonlinear_arith)
        requires
            pairs >= 0,
            b >= 0,
    ;
    decode_value::lemma_groups((pairs * b) as nat, 32);
    decode_value::lemma_row_of(v, pairs as int, r / 2, b as int);
    assert(b * pairs == pairs * b) by (nonlinear_arith);
    lemma_batch(
        "sgemv_q4_k_f32_batch"@,
        sgemv::sgemv_q4_k_batch_into_plan(k, n, b).dispatches[0],
        k,
        n,
        b,
        row4,
        false,
        device,
        mem,
        v,
        r,
    );
    lemma_batch(
        "sgemv_q4_k_f32_lcpp_nr2_batch"@,
        sgemv::sgemv_q4_k_lcpp_nr2_batch_into_plan(k, n, b).dispatches[0],
        k,
        n,
        b,
        row4,
        true,
        device,
        mem,
        v,
        r,
    );
    lemma_batch(
        "sgemv_q6_k_f32_batch"@,
        sgemv::sgemv_q6_k_batch_into_plan(k, n, b).dispatches[0],
        k,
        n,
        b,
        row6,
        false,
        device,
        mem,
        v,
        r,
    );
    lemma_batch(
        "sgemv_q6_k_f32_lcpp_nr2_batch"@,
        sgemv::sgemv_q6_k_lcpp_nr2_batch_into_plan(k, n, b).dispatches[0],
        k,
        n,
        b,
        row6,
        true,
        device,
        mem,
        v,
        r,
    );
}

/// What a fused product does: the vector is at slot 0, three matrices at slots 1
/// to 3, their results at slots 4 to 6; the words at slot 7 are the number of
/// columns and the numbers of rows. The rows count through the matrices.
pub open spec fn triple_kernel<T>(
    row: spec_fn(spec_fn(int) -> T, Seq<T>, nat, int) -> T,
    how: Reach,
    l: Launch<T>,
) -> Seq<Seq<T>> {
    let k = l.words[7][0] as nat;
    let part = |s: int, first: int, rows: int|
        Seq::new(
            l.bufs[s].len(),
            |r: int|
                if r < rows && reached(how, l, first + r) {
                    row(|i: int| l.bufs[0][i], l.bufs[s - 3], k, r)
                } else {
                    l.bufs[s][r]
                },
        );
    let a = l.words[7][1] as int;
    let b = l.words[7][2] as int;
    let c = l.words[7][3] as int;
    l.bufs.update(4, part(4, 0, a)).update(5, part(5, a, b)).update(6, part(6, a + b, c))
}

/// All rows of a fused product are reached.
pub open spec fn all_reached<T>(how: Reach, l: Launch<T>, rows: int) -> bool {
    forall|r: int| 0 <= r < rows ==> #[trigger] reached(how, l, r)
}

proof fn lemma_triple<T>(
    name: Seq<char>,
    d: DispatchModel,
    k: usize,
    n_q: usize,
    n_k: usize,
    n_v: usize,
    row: spec_fn(spec_fn(int) -> T, Seq<T>, nat, int) -> T,
    how: Reach,
    device: spec_fn(Seq<char>, Launch<T>) -> Seq<Seq<T>>,
    mem: Memory<T>,
    r: int,
)
    requires
        forall|l: Launch<T>| #[trigger] device(name, l) == triple_kernel(row, how, l),
        d.entry == name,
        d.bindings == sgemv::triple(name, k, n_q, n_k, n_v).bindings,
        k <= u32::MAX && n_q <= u32::MAX && n_k <= u32::MAX && n_v <= u32::MAX,
        mem.args.len() == 7,
        mem.args[4].len() >= n_q,
        mem.args[5].len() >= n_k,
        mem.args[6].len() >= n_v,
        0 <= r,
        all_reached(how, device::seen(dispatch::only(d), d, mem), n_q + n_k + n_v),
    ensures
        ({
            let after = device::carried_out(device, dispatch::only(d), mem);
            let x = |i: int| mem.args[0][i];
            &&& r < n_q ==> after.args[4][r] == row(x, mem.args[1], k as nat, r)
            &&& r < n_k ==> after.args[5][r] == row(x, mem.args[2], k as nat, r)
            &&& r < n_v ==> after.args[6][r] == row(x, mem.args[3], k as nat, r)
        }),
{
    let p = dispatch::only(d);
    device::lemma_single(device, p, mem);
    reveal_with_fuel(device::left, 10);
    let l = device::seen(p, p.dispatches[0], mem);
    let w = seq![k as u32, n_q as u32, n_k as u32, n_v as u32];
    let bs = d.bindings;
    assert(bs.len() == 8);
    assert(bs[0] == BindingModel::Arg(0) && bs[1] == BindingModel::Arg(1) && bs[2]
        == BindingModel::Arg(2) && bs[3] == BindingModel::Arg(3) && bs[4] == BindingModel::Arg(4)
        && bs[5] == BindingModel::Arg(5) && bs[6] == BindingModel::Arg(6) && bs[7]
        == BindingModel::Words(w));
    assert(l.words[7] == w);
    assert(l.bufs[0] == mem.args[0] && l.bufs[1] == mem.args[1] && l.bufs[2] == mem.args[2]
        && l.bufs[3] == mem.args[3] && l.bufs[4] == mem.args[4] && l.bufs[5] == mem.args[5]
        && l.bufs[6] == mem.args[6]);
    assert(l.bufs.len() == 8);
    if r < n_q {
        assert(reached(how, l, 0 + r));
    }
    if r < n_k {
        assert(reached(how, l, n_q + r));
    }
    if r < n_v {
        assert(reached(how, l, n_q + n_k + r));
    }
}

proof fn lemma_pair<T>(
    name: Seq<char>,
    d: DispatchModel,
    k: usize,
    n_a: usize,
    n_b: usize,
    row: spec_fn(spec_fn(int) -> T, Seq<T>, nat, int) -> T,
    how: Reach,
    device: spec_fn(Seq<char>, Launch<T>) -> Seq<Seq<T>>,
    mem: Memory<T>,
    r: int,
)
    requires
        forall|l: Launch<T>| #[trigger] device(name, l) == triple_kernel(row, how, l),
        d.entry == name,
        d.bindings == sgemv::pair(name, k, n_a, n_b).bindings,
        k <= u32::MAX && n_a <= u32::MAX && n_b <= u32::MAX,
        mem.args.len() == 5,
        mem.args[3].len() >= n_a,
        mem.args[4].len() >= n_b,
        0 <= r,
        all_reached(how, device::seen(dispatch::only(d), d, mem), n_a + n_b),
    ensures
        ({
            let after = device::carried_out(device, dispatch::only(d), mem);
            let x = |i: int| mem.args[0][i];
            &&& r < n_a ==> after.args[3][r] == row(x, mem.args[1], k as nat, r)
            &&& r < n_b ==> after.args[4][r] == row(x, mem.args[2], k as nat, r)
        }),
{
    let p = dispatch::only(d);
    device::lemma_single(device, p, mem);
    reveal_with_fuel(device::left, 10);
    let l = device::seen(p, p.dispatches[0], mem);
    let w = seq![k as u32, n_a as u32, n_b as u32, 0u32];
    let bs = d.bindings;
    assert(bs.len() == 8);
    assert(bs[0] == BindingModel::Arg(0) && bs[1] == BindingModel::Arg(1) && bs[2]
        == BindingModel::Arg(2) && bs[3] == BindingModel::Arg(2) && bs[4] == BindingModel::Arg(3)
        && bs[5] == BindingModel::Arg(4) && bs[6] == BindingModel::Arg(4) && bs[7]
        == BindingModel::Words(w));
    assert(l.words[7] == w);
    assert(l.bufs[0] == mem.args[0] && l.bufs[1] == mem.args[1] && l.bufs[2] == mem.args[2]
        && l.bufs[4] == mem.args[3] && l.bufs[5] == mem.args[4] && l.bufs[6] == mem.args[4]);
    assert(l.bufs.len() == 8);
    let outs = triple_kernel(row, how, l);
    assert(outs[6] =~= mem.args[4]);
    if r < n_a {
        assert(reached(how, l, 0 + r));
    }
    if r < n_b {
        assert(reached(how, l, n_a + r));
        assert(outs[5][r] == row(|i: int| l.bufs[0][i], l.bufs[2], k as nat, r));
    }
}

/// A fused launch of three products gives, for each of the three matrices, what
/// the product of that matrix alone gives, in that matrix's own result.
pub proof fn law_triple_products_compute<T>(
    k: usize,
    n_q: usize,
    n_k: usize,
    n_v: usize,
    row: spec_fn(spec_fn(int) -> T, Seq<T>, nat, int) -> T,
    device: spec_fn(Seq<char>, Launch<T>) -> Seq<Seq<T>>,
    mem: Memory<T>,
    r: int,
)
    requires
        forall|l: Launch<T>| #[trigger]
            device("sgemv_q4_k_f32_triple"@, l) == triple_kernel(
                row,
                Reach::Thread,
                l,
            ),
        forall|l: Launch<T>| #[trigger]
            device("sgemv_q4_k_f32_triple_quadcoop"@, l) == triple_kernel(
                row,
                Reach::Group { rows: 4, width: 32 },
                l,
            ),
        forall|l: Launch<T>| #[trigger]
            device("sgemv_q4_k_f32_triple_simdcoop"@, l) == triple_kernel(
                row,
                Reach::Group { rows: 1, width: 32 },
                l,
            ),
        k <= u32::MAX && n_q <= u32::MAX && n_k <= u32::MAX && n_v <= u32::MAX,
        mem.args.len() == 7,
        mem.args[4].len() >= n_q,
        mem.args[5].len() >= n_k,
        mem.args[6].len() >= n_v,
        0 <= r,
    ensures
        ({
            let x = |i: int| mem.args[0][i];
            let q = row(x, mem.args[1], k as nat, r);
            let kk = row(x, mem.args[2], k as nat, r);
            let v = row(x, mem.args[3], k as nat, r);
            let done = |p: PlanModel|
                {
                    let after = device::carried_out(device, p, mem);
                    &&& r < n_q ==> after.args[4][r] == q
                    &&& r < n_k ==> after.args[5][r] == kk
                    &&& r < n_v ==> after.args[6][r] == v
                };
            &&& done(sgemv::sgemv_q4_k_triple_into_plan(k, n_q, n_k, n_v))
            &&& done(sgemv::sgemv_q4_k_triple_quadcoop_into_plan(k, n_q, n_k, n_v))
            &&& done(sgemv::sgemv_q4_k_triple_simdcoop_into_plan(k, n_q, n_k, n_v))
        }),
{
    let total = (n_q + n_k + n_v) as nat;
    let d = sgemv::sgemv_q4_k_triple_into_plan(k, n_q, n_k, n_v).dispatches[0];
    lemma_total_reached(Reach::Thread, device::seen(dispatch::only(d), d, mem), total);
    lemma_triple(
        "sgemv_q4_k_f32_triple"@,
        d,
        k,
        n_q,
        n_k,
        n_v,
        row,
        Reach::Thread,
        device,
        mem,
        r,
    );
    let d_quadcoop = sgemv::sgemv_q4_k_triple_quadcoop_into_plan(k, n_q, n_k, n_v).dispatches[0];
    lemma_total_reached(Reach::Group { rows: 4, width: 32 }, device::seen(dispatch::only(d_quadcoop), d_quadcoop, mem), total);
    lemma_triple(
        "sgemv_q4_k_f32_triple_quadcoop"@,
        d_quadcoop,
        k,
        n_q,
        n_k,
        n_v,
        row,
        Reach::Group { rows: 4, width: 32 },
        device,
        mem,
        r,
    );
    let d_simdcoop = sgemv::sgemv_q4_k_triple_simdcoop_into_plan(k, n_q, n_k, n_v).dispatches[0];
    lemma_total_reached(Reach::Group { rows: 1, width: 32 }, device::seen(dispatch::only(d_simdcoop), d_simdcoop, mem), total);
    lemma_triple(
        "sgemv_q4_k_f32_triple_simdcoop"@,
        d_simdcoop,
        k,
        n_q,
        n_k,
        n_v,
        row,
        Reach::Group { rows: 1, width: 32 },
        device,
        mem,
        r,
    );
}

/// A fused launch of two products gives what the two products alone give.
pub proof fn law_pair_products_compute<T>(
    k: usize,
    n_a: usize,
    n_b: usize,
    row: spec_fn(spec_fn(int) -> T, Seq<T>, nat, int) -> T,
    device: spec_fn(Seq<char>, Launch<T>) -> Seq<Seq<T>>,
    mem: Memory<T>,
    r: int,
)
    requires
        forall|l: Launch<T>| #[trigger]
            device("sgemv_q4_k_f32_triple"@, l) == triple_kernel(
                row,
                Reach::Thread,
                l,
            ),
        forall|l: Launch<T>| #[trigger]
            device("sgemv_q4_k_f32_triple_quadcoop"@, l) == triple_kernel(
                row,
                Reach::Group { rows: 4, width: 32 },
                l,
            ),
        forall|l: Launch<T>| #[trigger]
            device("sgemv_q4_k_f32_triple_simdcoop"@, l) == triple_kernel(
                row,
                Reach::Group { rows: 1, width: 32 },
                l,
            ),
        k <= u32::MAX && n_a <= u32::MAX && n_b <= u32::MAX,
        mem.args.len() == 5,
        mem.args[3].len() >= n_a,
        mem.args[4].len() >= n_b,
        0 <= r,
    ensures
        ({
            let x = |i: int| mem.args[0][i];
            let a = row(x, mem.args[1], k as nat, r);
            let b = row(x, mem.args[2], k as nat, r);
            let done = |p: PlanModel|
                {
                    let after = device::carried_out(device, p, mem);
                    &&& r < n_a ==> after.args[3][r] == a
                    &&& r < n_b ==> after.args[4][r] == b
                };
            &&& done(sgemv::sgemv_q4_k_pair_into_plan(k, n_a, n_b))
            &&& done(sgemv::sgemv_q4_k_pair_quadcoop_into_plan(k, n_a, n_b))
            &&& done(sgemv::sgemv_q4_k_pair_simdcoop_into_plan(k, n_a, n_b))
        }),
{
    let total = (n_a + n_b) as nat;
    let d = sgemv::sgemv_q4_k_pair_into_plan(k, n_a, n_b).dispatches[0];
    lemma_total_reached(Reach::Thread, device::seen(dispatch::only(d), d, mem), total);
    lemma_pair(
        "sgemv_q4_k_f32_triple"@,
        d,
        k,
        n_a,
        n_b,
        row,
        Reach::Thread,
        device,
        mem,
        r,
    );
    let d_quadcoop = sgemv::sgemv_q4_k_pair_quadcoop_into_plan(k, n_a, n_b).dispatches[0];
    lemma_total_reached(Reach::Group { rows: 4, width: 32 }, device::seen(dispatch::only(d_quadcoop), d_quadcoop, mem), total);
    lemma_pair(
        "sgemv_q4_k_f32_triple_quadcoop"@,
        d_quadcoop,
        k,
        n_a,
        n_b,
        row,
        Reach::Group { rows: 4, width: 32 },
        device,
        mem,
        r,
    );
    let d_simdcoop = sgemv::sgemv_q4_k_pair_simdcoop_into_plan(k, n_a, n_b).dispatches[0];
    lemma_total_reached(Reach::Group { rows: 1, width: 32 }, device::seen(dispatch::only(d_simdcoop), d_simdcoop, mem), total);
    lemma_pair(
        "sgemv_q4_k_f32_triple_simdcoop"@,
        d_simdcoop,
        k,
        n_a,
        n_b,
        row,
        Reach::Group { rows: 1, width: 32 },
        device,
        mem,
        r,
    );
}

/// A grid with a thread, a quarter of a simdgroup or a simdgroup for each of
/// `total` rows reaches them all.
proof fn lemma_total_reached<T>(how: Reach, l: Launch<T>, total: nat)
    requires
        match how {
            Reach::Thread => l.threads.0 == total,
            Reach::Group { rows, width } => {
                &&& rows > 0
                &&& width > 0
                &&& l.width == width
                &&& l.groups.0 == dispatch::ceil_div(
                    width * dispatch::ceil_div(total, rows as nat),
                    width,
                )
            },
        },
    ensures
        all_reached(how, l, total as int),
{
    match how {
        Reach::Thread => {},
        Reach::Group { rows, width } => {
            let g = dispatch::ceil_div(total, rows as nat);
            dispatch::law_ceil_div(total, rows as nat);
            decode_value::lemma_groups(g, width);
            assert forall|r: int| 0 <= r < total implies #[trigger] reached(how, l, r) by {
                let n = g as int;
                assert(r / rows < n) by (nonlinear_arith)
                    requires
                        0 <= r < total,
                        n * rows >= total,
                        rows > 0,
                ;
            }
        },
    }
}

} // verus!
