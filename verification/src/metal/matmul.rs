//! Matrix products on the simdgroup-matrix units.
use crate::metal::device;
use crate::metal::device::{Launch, Memory};
use crate::metal::dispatch;
use crate::metal::dispatch::{Dispatch, DispatchModel, Plan, PlanModel};
use crate::metal::error::{shape_mismatch, unsupported, ErrorModel, MetalError};
use crate::nn::meaning;
use crate::nn::meaning::Num;
use crate::text;
use crate::text::Text;
use vstd::prelude::*;

verus! {

/// How a product kernel cuts its `[m, k] x [k, n]` problem into tiles.
#[derive(Debug, Clone, Copy, PartialEq, Eq, Structural)]
pub enum Tiling {
    /// Tiles of 16 by 256, 512 threads each.
    Wide,
    /// Tiles of 8 by 256, 256 threads each.
    Coarse,
    /// Tiles of 8 by 64, 256 threads each.
    Narrow,
    /// Tiles of 8 by 8, 32 threads each.
    Single,
}

impl Tiling {
    /// Rows per tile.
    pub open spec fn tile_m(self) -> int {
        if self == Tiling::Wide { 16 } else { 8 }
    }

    /// Columns per tile.
    pub open spec fn tile_n(self) -> int {
        match self {
            Tiling::Wide | Tiling::Coarse => 256,
            Tiling::Narrow => 64,
            Tiling::Single => 8,
        }
    }

    /// Threads per tile.
    pub open spec fn width(self) -> int {
        match self {
            Tiling::Wide => 512,
            Tiling::Coarse | Tiling::Narrow => 256,
            Tiling::Single => 32,
        }
    }

    /// The problem consists of whole tiles, and its inner dimension of whole
    /// groups of eight.
    pub open spec fn divides(self, m: int, k: int, n: int) -> bool {
        m % self.tile_m() == 0 && k % 8 == 0 && n % self.tile_n() == 0
    }

    /// Threads along the columns.
    pub open spec fn grid_x(self, n: int) -> int {
        n / self.tile_n() * self.width()
    }

    /// Rows of tiles.
    pub open spec fn grid_y(self, m: int) -> int {
        m / self.tile_m()
    }

    /// Rows per tile, columns per tile and threads per tile.
    fn parts(self) -> (r: (usize, usize, u64))
        ensures
            r.0 == self.tile_m(),
            r.1 == self.tile_n(),
            r.2 == self.width(),
    {
        match self {
            Tiling::Wide => (16, 256, 512),
            Tiling::Coarse => (8, 256, 256),
            Tiling::Narrow => (8, 64, 256),
            Tiling::Single => (8, 8, 32),
        }
    }
}

/// `s` followed by `": got m=<m>, k=<k>, n=<n>"`.
pub open spec fn got(s: Seq<char>, m: usize, k: usize, n: usize) -> Seq<char> {
    s + text::decimal(m as nat) + ", k="@ + text::decimal(k as nat) + ", n="@ + text::decimal(
        n as nat,
    )
}

/// Refuses a problem that the device or the tiling cannot take.
pub open spec fn tile_error(
    metal3: bool,
    t: Tiling,
    device: Seq<char>,
    shape: Seq<char>,
    m: usize,
    k: usize,
    n: usize,
) -> Option<ErrorModel> {
    if !metal3 {
        Some(ErrorModel::Unsupported(device))
    } else if !t.divides(m as int, k as int, n as int) {
        Some(ErrorModel::ShapeMismatch(got(shape, m, k, n)))
    } else {
        None
    }
}

fn check(
    metal3: bool,
    t: Tiling,
    device: &str,
    shape: &str,
    m: usize,
    k: usize,
    n: usize,
) -> (r: Option<MetalError>)
    ensures
        match r {
            Some(e) => tile_error(metal3, t, device@, shape@, m, k, n) == Some(e@),
            None => tile_error(metal3, t, device@, shape@, m, k, n) is None,
        },
{
    if !metal3 {
        return Some(unsupported(device));
    }
    let (tile_m, tile_n, _width) = t.parts();
    if m % tile_m != 0 || k % 8 != 0 || n % tile_n != 0 {
        return Some(
            shape_mismatch(Text::start(shape).num(m).lit(", k=").num(k).lit(", n=").num(n)),
        );
    }
    None
}

/// The sizes that have to be formed for an accepted problem fit the machine.
pub open spec fn sizes_fit(t: Tiling, m: int, n: int, elem: int) -> bool {
    m * n <= usize::MAX && m * n * elem <= usize::MAX && t.grid_x(n) <= u64::MAX
}

fn grid_x(t: Tiling, n: usize) -> (r: u64)
    requires
        t.grid_x(n as int) <= u64::MAX,
    ensures
        r == t.grid_x(n as int),
{
    let (_tile_m, tile_n, width) = t.parts();
    (n / tile_n) as u64 * width
}

fn grid_y(t: Tiling, m: usize) -> (r: u64)
    ensures
        r == t.grid_y(m as int),
{
    let (tile_m, _tile_n, _width) = t.parts();
    (m / tile_m) as u64
}

/// A product kernel that takes its dimensions from a 16-byte buffer and
/// writes a fresh buffer of `elem`-byte elements.
pub open spec fn buffered(
    name: Seq<char>,
    t: Tiling,
    elem: int,
    m: usize,
    k: usize,
    n: usize,
) -> PlanModel {
    PlanModel::empty().buffer((m * n * elem) as nat).uniform(
        16,
        seq![m as u32, k as u32, n as u32],
    ).launch(
        DispatchModel::kernel(name, name).arg(0).arg(1).temp(0).temp(1).threads(
            t.grid_x(n as int) as nat,
            t.grid_y(m as int) as nat,
            t.width() as nat,
        ),
    ).returning(0)
}

fn plan_buffered(name: &'static str, t: Tiling, elem: usize, m: usize, k: usize, n: usize) -> (r:
    Plan)
    requires
        sizes_fit(t, m as int, n as int, elem as int),
    ensures
        r@ == buffered(name@, t, elem as int, m, k, n),
{
    let d = Dispatch::kernel(name, name).arg(0).arg(1).temp(0).temp(1).threads(
        grid_x(t, n),
        grid_y(t, m),
        t.parts().2,
    );
    Plan::empty().buffer(m * n * elem).uniform(16, dispatch::words3(m, k, n)).launch(
        d,
    ).returning(0)
}

/// A product kernel that takes its dimensions inline and writes a pooled
/// buffer; `bias` adds a third operand.
pub open spec fn inline(name: Seq<char>, bias: bool, m: usize, k: usize, n: usize) -> PlanModel {
    let d = DispatchModel::kernel(name, name).arg(0).arg(1);
    let d2 = if bias { d.arg(2) } else { d };
    PlanModel::empty().pooled((m * n * 4) as nat).launch(
        d2.temp(0).words(seq![m as u32, k as u32, n as u32, 0u32]).threads(
            Tiling::Wide.grid_x(n as int) as nat,
            Tiling::Wide.grid_y(m as int) as nat,
            512,
        ),
    ).returning(0)
}

fn plan_inline(name: &'static str, bias: bool, m: usize, k: usize, n: usize) -> (r: Plan)
    requires
        sizes_fit(Tiling::Wide, m as int, n as int, 4),
    ensures
        r@ == inline(name@, bias, m, k, n),
{
    let d = Dispatch::kernel(name, name).arg(0).arg(1);
    let d2 = if bias {
        d.arg(2)
    } else {
        d
    };
    let d3 = d2.temp(0).words(dispatch::words4(m, k, n, 0)).threads(
        grid_x(Tiling::Wide, n),
        grid_y(Tiling::Wide, m),
        512,
    );
    Plan::empty().pooled(m * n * 4).launch(d3).returning(0)
}

/// `a @ b` in tiles of 16 by 256.
pub fn matmul_simdgroup_f32_coarsened_wide(
    metal3: bool,
    m: usize,
    k: usize,
    n: usize,
) -> (r: Result<Plan, MetalError>)
    requires
        metal3 && Tiling::Wide.divides(m as int, k as int, n as int) ==> sizes_fit(
            Tiling::Wide,
            m as int,
            n as int,
            4,
        ),
    ensures
        dispatch::planned(r) == dispatch::outcome(
            tile_error(
                metal3,
                Tiling::Wide,
                "matmul_simdgroup_f32_coarsened_wide needs Metal3"@,
                "matmul_simdgroup_f32_coarsened_wide needs m%16==0, k%8==0, n%256==0: got m="@,
                m,
                k,
                n,
            ),
            inline("matmul_simdgroup_f32_coarsened_wide"@, false, m, k, n),
        ),
{
    match check(
        metal3,
        Tiling::Wide,
        "matmul_simdgroup_f32_coarsened_wide needs Metal3",
        "matmul_simdgroup_f32_coarsened_wide needs m%16==0, k%8==0, n%256==0: got m=",
        m,
        k,
        n,
    ) {
        Some(e) => Err(e),
        None => Ok(plan_inline("matmul_simdgroup_f32_coarsened_wide", false, m, k, n)),
    }
}

/// `a @ b + bias` in tiles of 16 by 256.
pub fn matmul_simdgroup_f32_coarsened_wide_bias(
    metal3: bool,
    m: usize,
    k: usize,
    n: usize,
) -> (r: Result<Plan, MetalError>)
    requires
        metal3 && Tiling::Wide.divides(m as int, k as int, n as int) ==> sizes_fit(
            Tiling::Wide,
            m as int,
            n as int,
            4,
        ),
    ensures
        dispatch::planned(r) == dispatch::outcome(
            tile_error(
                metal3,
                Tiling::Wide,
                "matmul_simdgroup_f32_coarsened_wide_bias needs Metal3"@,
                "matmul_simdgroup_f32_coarsened_wide_bias needs m%16==0, k%8==0, n%256==0: got m="@,
                m,
                k,
                n,
            ),
            inline("matmul_simdgroup_f32_coarsened_wide_bias"@, true, m, k, n),
        ),
{
    match check(
        metal3,
        Tiling::Wide,
        "matmul_simdgroup_f32_coarsened_wide_bias needs Metal3",
        "matmul_simdgroup_f32_coarsened_wide_bias needs m%16==0, k%8==0, n%256==0: got m=",
        m,
        k,
        n,
    ) {
        Some(e) => Err(e),
        None => Ok(plan_inline("matmul_simdgroup_f32_coarsened_wide_bias", true, m, k, n)),
    }
}

/// `a @ transpose(b)` with `b` of shape `[n, k]`.
pub fn matmul_simdgroup_f32_b_t(
    metal3: bool,
    m: usize,
    k: usize,
    n: usize,
) -> (r: Result<Plan, MetalError>)
    requires
        metal3 && Tiling::Wide.divides(m as int, k as int, n as int) ==> sizes_fit(
            Tiling::Wide,
            m as int,
            n as int,
            4,
        ),
    ensures
        dispatch::planned(r) == dispatch::outcome(
            tile_error(
                metal3,
                Tiling::Wide,
                "matmul_simdgroup_f32_b_t needs Metal3"@,
                "matmul_simdgroup_f32_b_t needs m%16==0, k%8==0, n%256==0: got m="@,
                m,
                k,
                n,
            ),
            inline("matmul_simdgroup_f32_b_t"@, false, m, k, n),
        ),
{
    match check(
        metal3,
        Tiling::Wide,
        "matmul_simdgroup_f32_b_t needs Metal3",
        "matmul_simdgroup_f32_b_t needs m%16==0, k%8==0, n%256==0: got m=",
        m,
        k,
        n,
    ) {
        Some(e) => Err(e),
        None => Ok(plan_inline("matmul_simdgroup_f32_b_t", false, m, k, n)),
    }
}

/// `transpose(a) @ b` with `a` of shape `[k, m]`.
pub fn matmul_simdgroup_f32_a_t(
    metal3: bool,
    m: usize,
    k: usize,
    n: usize,
) -> (r: Result<Plan, MetalError>)
    requires
        metal3 && Tiling::Wide.divides(m as int, k as int, n as int) ==> sizes_fit(
            Tiling::Wide,
            m as int,
            n as int,
            4,
        ),
    ensures
        dispatch::planned(r) == dispatch::outcome(
            tile_error(
                metal3,
                Tiling::Wide,
                "matmul_simdgroup_f32_a_t needs Metal3"@,
                "matmul_simdgroup_f32_a_t needs m%16==0, k%8==0, n%256==0: got m="@,
                m,
                k,
                n,
            ),
            inline("matmul_simdgroup_f32_a_t"@, false, m, k, n),
        ),
{
    match check(
        metal3,
        Tiling::Wide,
        "matmul_simdgroup_f32_a_t needs Metal3",
        "matmul_simdgroup_f32_a_t needs m%16==0, k%8==0, n%256==0: got m=",
        m,
        k,
        n,
    ) {
        Some(e) => Err(e),
        None => Ok(plan_inline("matmul_simdgroup_f32_a_t", false, m, k, n)),
    }
}

/// `a @ b` in tiles of 8 by 256.
pub fn matmul_simdgroup_f32_coarsened(
    metal3: bool,
    m: usize,
    k: usize,
    n: usize,
) -> (r: Result<Plan, MetalError>)
    requires
        metal3 && Tiling::Coarse.divides(m as int, k as int, n as int) ==> sizes_fit(
            Tiling::Coarse,
            m as int,
            n as int,
            4,
        ),
    ensures
        dispatch::planned(r) == dispatch::outcome(
            tile_error(
                metal3,
                Tiling::Coarse,
                "matmul_simdgroup_f32_coarsened needs Metal3"@,
                "matmul_simdgroup_f32_coarsened needs m%8==0, k%8==0, n%256==0: got m="@,
                m,
                k,
                n,
            ),
            buffered("matmul_simdgroup_f32_coarsened"@, Tiling::Coarse, 4, m, k, n),
        ),
{
    match check(
        metal3,
        Tiling::Coarse,
        "matmul_simdgroup_f32_coarsened needs Metal3",
        "matmul_simdgroup_f32_coarsened needs m%8==0, k%8==0, n%256==0: got m=",
        m,
        k,
        n,
    ) {
        Some(e) => Err(e),
        None => Ok(plan_buffered("matmul_simdgroup_f32_coarsened", Tiling::Coarse, 4, m, k, n)),
    }
}

/// `a @ b` of 16-bit operands with a single-precision product.
pub fn matmul_bf16_in_f32_out(
    metal3: bool,
    m: usize,
    k: usize,
    n: usize,
) -> (r: Result<Plan, MetalError>)
    requires
        metal3 && Tiling::Wide.divides(m as int, k as int, n as int) ==> sizes_fit(
            Tiling::Wide,
            m as int,
            n as int,
            4,
        ),
    ensures
        dispatch::planned(r) == dispatch::outcome(
            tile_error(
                metal3,
                Tiling::Wide,
                "matmul_bf16_in_f32_out needs Metal3"@,
                "matmul_bf16_in_f32_out needs m%16==0, k%8==0, n%256==0: got m="@,
                m,
                k,
                n,
            ),
            buffered("matmul_bf16_in_f32_out"@, Tiling::Wide, 4, m, k, n),
        ),
{
    match check(
        metal3,
        Tiling::Wide,
        "matmul_bf16_in_f32_out needs Metal3",
        "matmul_bf16_in_f32_out needs m%16==0, k%8==0, n%256==0: got m=",
        m,
        k,
        n,
    ) {
        Some(e) => Err(e),
        None => Ok(plan_buffered("matmul_bf16_in_f32_out", Tiling::Wide, 4, m, k, n)),
    }
}

/// `a @ b` of 16-bit operands with a 16-bit product.
pub fn matmul_simdgroup_bf16_pub(
    metal3: bool,
    m: usize,
    k: usize,
    n: usize,
) -> (r: Result<Plan, MetalError>)
    requires
        metal3 && Tiling::Narrow.divides(m as int, k as int, n as int) ==> sizes_fit(
            Tiling::Narrow,
            m as int,
            n as int,
            2,
        ),
    ensures
        dispatch::planned(r) == dispatch::outcome(
            tile_error(
                metal3,
                Tiling::Narrow,
                "matmul_simdgroup_bf16_pub needs Metal3"@,
                "matmul_simdgroup_bf16_pub needs m%8==0, k%8==0, n%64==0: got m="@,
                m,
                k,
                n,
            ),
            buffered("matmul_simdgroup_bf16"@, Tiling::Narrow, 2, m, k, n),
        ),
{
    match check(
        metal3,
        Tiling::Narrow,
        "matmul_simdgroup_bf16_pub needs Metal3",
        "matmul_simdgroup_bf16_pub needs m%8==0, k%8==0, n%64==0: got m=",
        m,
        k,
        n,
    ) {
        Some(e) => Err(e),
        None => Ok(plan_buffered("matmul_simdgroup_bf16", Tiling::Narrow, 2, m, k, n)),
    }
}

/// `a @ b` in tiles of 8 by 64.
pub fn matmul_simdgroup_f32_multisg(
    metal3: bool,
    m: usize,
    k: usize,
    n: usize,
) -> (r: Result<Plan, MetalError>)
    requires
        metal3 && Tiling::Narrow.divides(m as int, k as int, n as int) ==> sizes_fit(
            Tiling::Narrow,
            m as int,
            n as int,
            4,
        ),
    ensures
        dispatch::planned(r) == dispatch::outcome(
            tile_error(
                metal3,
                Tiling::Narrow,
                "matmul_simdgroup_f32_multisg needs MTLGPUFamily::Metal3"@,
                "matmul_simdgroup_f32_multisg needs m%8==0, k%8==0, n%64==0: got m="@,
                m,
                k,
                n,
            ),
            buffered("matmul_simdgroup_f32_multisg"@, Tiling::Narrow, 4, m, k, n),
        ),
{
    match check(
        metal3,
        Tiling::Narrow,
        "matmul_simdgroup_f32_multisg needs MTLGPUFamily::Metal3",
        "matmul_simdgroup_f32_multisg needs m%8==0, k%8==0, n%64==0: got m=",
        m,
        k,
        n,
    ) {
        Some(e) => Err(e),
        None => Ok(plan_buffered("matmul_simdgroup_f32_multisg", Tiling::Narrow, 4, m, k, n)),
    }
}

/// `a @ b` in tiles of 8 by 8.
pub fn matmul_simdgroup_f32(
    metal3: bool,
    m: usize,
    k: usize,
    n: usize,
) -> (r: Result<Plan, MetalError>)
    requires
        metal3 && Tiling::Single.divides(m as int, k as int, n as int) ==> sizes_fit(
            Tiling::Single,
            m as int,
            n as int,
            4,
        ),
    ensures
        dispatch::planned(r) == dispatch::outcome(
            tile_error(
                metal3,
                Tiling::Single,
                "matmul_simdgroup_f32 needs MTLGPUFamily::Metal3 (M3+, A17 Pro+)"@,
                "matmul_simdgroup_f32 v1 needs shapes divisible by 8: got m="@,
                m,
                k,
                n,
            ),
            buffered("matmul_simdgroup_f32"@, Tiling::Single, 4, m, k, n),
        ),
{
    match check(
        metal3,
        Tiling::Single,
        "matmul_simdgroup_f32 needs MTLGPUFamily::Metal3 (M3+, A17 Pro+)",
        "matmul_simdgroup_f32 v1 needs shapes divisible by 8: got m=",
        m,
        k,
        n,
    ) {
        Some(e) => Err(e),
        None => Ok(plan_buffered("matmul_simdgroup_f32", Tiling::Single, 4, m, k, n)),
    }
}

/// Casts `n` single-precision elements to 16-bit.
pub open spec fn cast_down(n: nat) -> PlanModel {
    PlanModel::empty().buffer(n * 2).uniform(4, seq![n as u32]).launch(
        DispatchModel::kernel("cast_f32_to_bf16"@, "cast_f32_to_bf16"@).arg(0).temp(0).temp(
            1,
        ).threads(n, 1, 256).clamped(),
    ).returning(0)
}

/// Casts `n` 16-bit elements to single precision.
pub open spec fn cast_up(n: nat) -> PlanModel {
    PlanModel::empty().buffer(n * 4).uniform(4, seq![n as u32]).launch(
        DispatchModel::kernel("cast_bf16_to_f32"@, "cast_bf16_to_f32"@).arg(0).temp(0).temp(
            1,
        ).threads(n, 1, 256).clamped(),
    ).returning(0)
}

/// Casts `n` elements from single precision to 16-bit.
pub fn cast_f32_to_bf16_pub(n: usize) -> (r: Result<Plan, MetalError>)
    requires
        n * 2 <= usize::MAX,
    ensures
        dispatch::planned(r) == Ok::<PlanModel, ErrorModel>(cast_down(n as nat)),
{
    let d = Dispatch::kernel("cast_f32_to_bf16", "cast_f32_to_bf16").arg(0).temp(0).temp(
        1,
    ).threads(n as u64, 1, 256).clamped();
    Ok(Plan::empty().buffer(n * 2).uniform(4, dispatch::words1(n)).launch(d).returning(0))
}

/// Casts `n` elements from 16-bit to single precision.
pub fn cast_bf16_to_f32_pub(n: usize) -> (r: Result<Plan, MetalError>)
    requires
        n * 4 <= usize::MAX,
    ensures
        dispatch::planned(r) == Ok::<PlanModel, ErrorModel>(cast_up(n as nat)),
{
    let d = Dispatch::kernel("cast_bf16_to_f32", "cast_bf16_to_f32").arg(0).temp(0).temp(
        1,
    ).threads(n as u64, 1, 256).clamped();
    Ok(Plan::empty().buffer(n * 4).uniform(4, dispatch::words1(n)).launch(d).returning(0))
}

/// The four launches of a single-precision product through 16-bit operands:
/// both operands are cast down, multiplied, and the product is cast back.
pub open spec fn via_bf16(m: usize, k: usize, n: usize) -> PlanModel {
    PlanModel::empty().buffer((m * k * 2) as nat).uniform(4, seq![(m * k) as u32]).buffer(
        (k * n * 2) as nat,
    ).uniform(4, seq![(k * n) as u32]).buffer((m * n * 2) as nat).uniform(
        16,
        seq![m as u32, k as u32, n as u32],
    ).buffer((m * n * 4) as nat).uniform(4, seq![(m * n) as u32]).launch(
        DispatchModel::kernel("cast_f32_to_bf16"@, "cast_f32_to_bf16"@).arg(0).temp(0).temp(
            1,
        ).threads((m * k) as nat, 1, 256).clamped(),
    ).launch(
        DispatchModel::kernel("cast_f32_to_bf16"@, "cast_f32_to_bf16"@).arg(1).temp(2).temp(
            3,
        ).threads((k * n) as nat, 1, 256).clamped(),
    ).launch(
        DispatchModel::kernel("matmul_simdgroup_bf16"@, "matmul_simdgroup_bf16"@).temp(0).temp(
            2,
        ).temp(4).temp(5).threads(
            Tiling::Narrow.grid_x(n as int) as nat,
            Tiling::Narrow.grid_y(m as int) as nat,
            256,
        ),
    ).launch(
        DispatchModel::kernel("cast_bf16_to_f32"@, "cast_bf16_to_f32"@).temp(4).temp(6).temp(
            7,
        ).threads((m * n) as nat, 1, 256).clamped(),
    ).returning(6)
}

/// Single-precision product computed on 16-bit operands.
pub fn matmul_simdgroup_f32_via_bf16(
    metal3: bool,
    m: usize,
    k: usize,
    n: usize,
) -> (r: Result<Plan, MetalError>)
    requires
        metal3 && Tiling::Narrow.divides(m as int, k as int, n as int) ==> {
            &&& sizes_fit(Tiling::Narrow, m as int, n as int, 4)
            &&& m * k * 2 <= usize::MAX
            &&& k * n * 2 <= usize::MAX
        },
    ensures
        dispatch::planned(r) == dispatch::outcome(
            tile_error(
                metal3,
                Tiling::Narrow,
                "matmul_simdgroup_f32_via_bf16 needs MTLGPUFamily::Metal3"@,
                "matmul_simdgroup_f32_via_bf16 needs m%8==0, k%8==0, n%64==0: got m="@,
                m,
                k,
                n,
            ),
            via_bf16(m, k, n),
        ),
{
    match check(
        metal3,
        Tiling::Narrow,
        "matmul_simdgroup_f32_via_bf16 needs MTLGPUFamily::Metal3",
        "matmul_simdgroup_f32_via_bf16 needs m%8==0, k%8==0, n%64==0: got m=",
        m,
        k,
        n,
    ) {
        Some(e) => {
            return Err(e);
        },
        None => {},
    }
    let mk: usize = m * k;
    let kn: usize = k * n;
    let mn: usize = m * n;
    let cast_a = Dispatch::kernel("cast_f32_to_bf16", "cast_f32_to_bf16").arg(0).temp(0).temp(
        1,
    ).threads(mk as u64, 1, 256).clamped();
    let cast_b = Dispatch::kernel("cast_f32_to_bf16", "cast_f32_to_bf16").arg(1).temp(2).temp(
        3,
    ).threads(kn as u64, 1, 256).clamped();
    let product = Dispatch::kernel("matmul_simdgroup_bf16", "matmul_simdgroup_bf16").temp(0).temp(
        2,
    ).temp(4).temp(5).threads(grid_x(Tiling::Narrow, n), grid_y(Tiling::Narrow, m), 256);
    let cast_c = Dispatch::kernel("cast_bf16_to_f32", "cast_bf16_to_f32").temp(4).temp(6).temp(
        7,
    ).threads(mn as u64, 1, 256).clamped();
    Ok(
        Plan::empty().buffer(mk * 2).uniform(4, dispatch::words1(mk)).buffer(kn * 2).uniform(
            4,
            dispatch::words1(kn),
        ).buffer(mn * 2).uniform(16, dispatch::words3(m, k, n)).buffer(mn * 4).uniform(
            4,
            dispatch::words1(mn),
        ).launch(cast_a).launch(cast_b).launch(product).launch(cast_c).returning(6),
    )
}

/// An accepted problem is covered exactly: the rows of tiles times the rows
/// per tile give `m`, and the tiles of a row times the columns per tile give
/// `n`.
pub proof fn law_tiles_cover(t: Tiling, m: int, k: int, n: int)
    requires
        t.divides(m, k, n),
        m >= 0,
        n >= 0,
    ensures
        t.grid_y(m) * t.tile_m() == m,
        n / t.tile_n() * t.tile_n() == n,
        t.grid_x(n) == n / t.tile_n() * t.width(),
{
    let tm = t.tile_m();
    let tn = t.tile_n();
    assert(m / tm * tm == m) by (nonlinear_arith)
        requires
            tm > 0,
            m % tm == 0,
    ;
    assert(n / tn * tn == n) by (nonlinear_arith)
        requires
            tn > 0,
            n % tn == 0,
    ;
}

/// Each tiling is finer than the one before it: what a wider kernel accepts,
/// the narrower ones accept too.
pub proof fn law_tilings_nest(m: int, k: int, n: int)
    ensures
        Tiling::Wide.divides(m, k, n) ==> Tiling::Coarse.divides(m, k, n),
        Tiling::Coarse.divides(m, k, n) ==> Tiling::Narrow.divides(m, k, n),
        Tiling::Narrow.divides(m, k, n) ==> Tiling::Single.divides(m, k, n),
{
}

/// What a product kernel does whose threadgroups compute tiles of `tm` rows and
/// `tn` columns: the operands are at slots 0 and 1, the result at slot `out`,
/// and the words behind it are the numbers of rows, inner entries and columns.
/// Entry `[i, j]` of the result becomes `f(i, j)`, from the operands and the
/// sizes, where its tile has a threadgroup.
pub open spec fn tiled_kernel<T>(
    tm: int,
    tn: int,
    out: int,
    f: spec_fn(Launch<T>, int, int, int, int, int) -> T,
    l: Launch<T>,
) -> Seq<Seq<T>> {
    let rows = l.words[out + 1][0] as int;
    let inner = l.words[out + 1][1] as int;
    let cols = l.words[out + 1][2] as int;
    device::writing(
        l,
        out,
        |x: int|
            x / cols < rows && x / cols / tm < l.groups.1 && x % cols / tn < l.groups.0,
        |x: int| f(l, rows, inner, cols, x / cols, x % cols),
    )
}

/// Entry `[i, j]` of `a b`, of `a b^T` where `b` is stored with its columns as
/// rows, or of `a^T b` where `a` is.
pub open spec fn product_at<T>(
    num: Num<T>,
    a_t: bool,
    b_t: bool,
    a: Seq<T>,
    b: Seq<T>,
    rows: int,
    inner: int,
    cols: int,
    i: int,
    j: int,
) -> T {
    num.sum(
        inner,
        |l: int|
            (num.mul)(
                if a_t {
                    a[l * rows + i]
                } else {
                    a[i * inner + l]
                },
                if b_t {
                    b[j * inner + l]
                } else {
                    b[l * cols + j]
                },
            ),
    )
}

/// An entry of a product is the sum of its terms.
proof fn lemma_product_at<T>(
    num: Num<T>,
    a_t: bool,
    b_t: bool,
    a: Seq<T>,
    b: Seq<T>,
    rows: int,
    inner: int,
    cols: int,
    i: int,
    j: int,
    f: spec_fn(int) -> T,
)
    requires
        forall|l: int|
            0 <= l < inner ==> #[trigger] f(l) == (num.mul)(
                if a_t {
                    a[l * rows + i]
                } else {
                    a[i * inner + l]
                },
                if b_t {
                    b[j * inner + l]
                } else {
                    b[l * cols + j]
                },
            ),
    ensures
        product_at(num, a_t, b_t, a, b, rows, inner, cols, i, j) == num.sum(inner, f),
{
    let g = |l: int|
        (num.mul)(
            if a_t {
                a[l * rows + i]
            } else {
                a[i * inner + l]
            },
            if b_t {
                b[j * inner + l]
            } else {
                b[l * cols + j]
            },
        );
    meaning::lemma_sum_congruent(num, inner, f, g);
}

/// A product kernel.
pub open spec fn product_kernel<T>(
    num: Num<T>,
    a_t: bool,
    b_t: bool,
    tm: int,
    tn: int,
    l: Launch<T>,
) -> Seq<Seq<T>> {
    tiled_kernel(
        tm,
        tn,
        2,
        |l: Launch<T>, rows: int, inner: int, cols: int, i: int, j: int|
            product_at(num, a_t, b_t, l.bufs[0], l.bufs[1], rows, inner, cols, i, j),
        l,
    )
}

/// A product kernel that adds the bias at slot 2.
pub open spec fn product_bias_kernel<T>(num: Num<T>, tm: int, tn: int, l: Launch<T>) -> Seq<Seq<T>> {
    tiled_kernel(
        tm,
        tn,
        3,
        |l: Launch<T>, rows: int, inner: int, cols: int, i: int, j: int|
            (num.add)(
                product_at(num, false, false, l.bufs[0], l.bufs[1], rows, inner, cols, i, j),
                l.bufs[2][j],
            ),
        l,
    )
}

/// The words of a launch and the grid that covers the result.
proof fn lemma_tiles_reach(t: Tiling, m: usize, k: usize, n: usize, i: int, j: int)
    requires
        t.divides(m as int, k as int, n as int),
        0 <= i < m,
        0 <= j < n,
    ensures
        0 <= i * n + j < m * n,
        (i * n + j) / (n as int) == i,
        (i * n + j) % (n as int) == j,
        i / t.tile_m() < dispatch::ceil_div(t.grid_y(m as int) as nat, 1),
        j / t.tile_n() < dispatch::ceil_div(t.grid_x(n as int) as nat, t.width() as nat),
{
    assert(0 <= i * n + j < m * n) by (nonlinear_arith)
        requires
            0 <= i < m,
            0 <= j < n,
    ;
    assert((i * n + j) / (n as int) == i && (i * n + j) % (n as int) == j) by (nonlinear_arith)
        requires
            0 <= i,
            0 <= j < n,
    ;
    law_tiles_cover(t, m as int, k as int, n as int);
    let tm = t.tile_m();
    let tn = t.tile_n();
    let w = t.width();
    let gy = t.grid_y(m as int);
    let gx = n as int / tn;
    assert(i / tm < gy) by (nonlinear_arith)
        requires
            0 <= i < m,
            gy * tm == m,
            tm > 0,
    ;
    assert(0 <= gx && j / tn < gx) by (nonlinear_arith)
        requires
            0 <= j < n,
            gx * tn == n,
            tn > 0,
    ;
    let q = (gx * w + w - 1) / w;
    assert(q == gx) by (nonlinear_arith)
        requires
            q == (gx * w + w - 1) / w,
            w > 0,
            gx >= 0,
    ;
}

/// On a device whose kernels compute tiles of 16 by 256, 8 by 256, 8 by 64 and
/// 8 by 8, as the tiling says, a product launch whose sizes come in a buffer
/// gives `C[i * n + j] = sum over l < k of A[i * k + l] * B[l * n + j]` for
/// every row `i` and column `j`: no tile is missing, and the sizes stand where
/// the kernel reads them.
pub proof fn law_product_computes<T>(
    name: Seq<char>,
    t: Tiling,
    elem: int,
    m: usize,
    k: usize,
    n: usize,
    num: Num<T>,
    device: spec_fn(Seq<char>, Launch<T>) -> Seq<Seq<T>>,
    mem: Memory<T>,
    i: int,
    j: int,
)
    requires
        forall|l: Launch<T>| #[trigger]
            device(name, l) == product_kernel(
                num,
                false,
                false,
                if t == Tiling::Wide { 16 } else { 8 },
                match t {
                    Tiling::Wide | Tiling::Coarse => 256int,
                    Tiling::Narrow => 64,
                    Tiling::Single => 8,
                },
                l,
            ),
        t.divides(m as int, k as int, n as int),
        m <= u32::MAX && k <= u32::MAX && n <= u32::MAX,
        elem > 0,
        mem.args.len() >= 2,
        mem.temps.len() == 2,
        mem.temps[0].len() * elem == buffered(name, t, elem, m, k, n).allocs[0].bytes,
        0 <= i < m,
        0 <= j < n,
    ensures
        device::answer(device, buffered(name, t, elem, m, k, n), mem)[i * n + j] == num.sum(
            k as int,
            |l: int| (num.mul)(mem.args[0][i * k + l], mem.args[1][l * n + j]),
        ),
        ({
            let d = buffered(name, t, elem, m, k, n).dispatches[0];
            let words = device::words_of(buffered(name, t, elem, m, k, n), d.bindings[3]);
            words[0] == m && words[1] == k && words[2] == n
        }),
{
    let p = buffered(name, t, elem, m, k, n);
    let d = p.dispatches[0];
    device::lemma_single(device, p, mem);
    let l = device::seen(p, d, mem);
    reveal_with_fuel(device::left, 6);
    lemma_tiles_reach(t, m, k, n, i, j);
    assert(l.words[3] == seq![m as u32, k as u32, n as u32]);
    assert(l.bufs[0] == mem.args[0] && l.bufs[1] == mem.args[1] && l.bufs[2] == mem.temps[0]);
    assert(l.bufs.len() == 4);
    assert(m * n * elem >= 0) by (nonlinear_arith)
        requires
            m >= 0,
            n >= 0,
            elem > 0,
    ;
    let size = m * n;
    assert(mem.temps[0].len() == size) by (nonlinear_arith)
        requires
            mem.temps[0].len() * elem == size * elem,
            elem > 0,
    ;
    let f = |x: int| (num.mul)(mem.args[0][i * k + x], mem.args[1][x * n + j]);
    lemma_product_at(
        num,
        false,
        false,
        mem.args[0],
        mem.args[1],
        m as int,
        k as int,
        n as int,
        i,
        j,
        f,
    );
}

/// The products whose sizes come inline: `A B`, `A B + bias`, `A B^T` with `B`
/// stored as `[n, k]`, and `A^T B` with `A` stored as `[k, m]`.
pub proof fn law_inline_product_computes<T>(
    name: Seq<char>,
    bias: bool,
    a_t: bool,
    b_t: bool,
    m: usize,
    k: usize,
    n: usize,
    num: Num<T>,
    device: spec_fn(Seq<char>, Launch<T>) -> Seq<Seq<T>>,
    mem: Memory<T>,
    i: int,
    j: int,
)
    requires
        bias ==> !a_t && !b_t,
        forall|l: Launch<T>| #[trigger]
            device(name, l) == if bias {
                product_bias_kernel(num, 16, 256, l)
            } else {
                product_kernel(num, a_t, b_t, 16, 256, l)
            },
        m % 16 == 0 && k % 8 == 0 && n % 256 == 0,
        m <= u32::MAX && k <= u32::MAX && n <= u32::MAX,
        mem.args.len() == if bias { 3int } else { 2 },
        device::allocated(inline(name, bias, m, k, n), mem, 4),
        0 <= i < m,
        0 <= j < n,
    ensures
        ({
            let sum = num.sum(
                k as int,
                |l: int|
                    (num.mul)(
                        if a_t {
                            mem.args[0][l * m + i]
                        } else {
                            mem.args[0][i * k + l]
                        },
                        if b_t {
                            mem.args[1][j * k + l]
                        } else {
                            mem.args[1][l * n + j]
                        },
                    ),
            );
            device::answer(device, inline(name, bias, m, k, n), mem)[i * n + j] == if bias {
                (num.add)(sum, mem.args[2][j])
            } else {
                sum
            }
        }),
{
    let p = inline(name, bias, m, k, n);
    let d = p.dispatches[0];
    let t = Tiling::Wide;
    device::lemma_single(device, p, mem);
    let l = device::seen(p, d, mem);
    reveal_with_fuel(device::left, 7);
    lemma_tiles_reach(t, m, k, n, i, j);
    assert(mem.temps[0].len() * 4 == p.allocs[0].bytes);
    assert(l.bufs[0] == mem.args[0] && l.bufs[1] == mem.args[1]);
    if bias {
        assert(l.words[4] == seq![m as u32, k as u32, n as u32, 0u32]);
        assert(l.bufs[2] == mem.args[2] && l.bufs[3] == mem.temps[0]);
        assert(l.bufs.len() == 5);
    } else {
        assert(l.words[3] == seq![m as u32, k as u32, n as u32, 0u32]);
        assert(l.bufs[2] == mem.temps[0]);
        assert(l.bufs.len() == 4);
    }
    let f = |x: int|
        (num.mul)(
            if a_t {
                mem.args[0][x * m + i]
            } else {
                mem.args[0][i * k + x]
            },
            if b_t {
                mem.args[1][j * k + x]
            } else {
                mem.args[1][x * n + j]
            },
        );
    lemma_product_at(
        num,
        a_t,
        b_t,
        mem.args[0],
        mem.args[1],
        m as int,
        k as int,
        n as int,
        i,
        j,
        f,
    );
}

/// What a cast does: each of the first elements of slot 0, as many as the word
/// at slot 2 says, goes through `f` into slot 1.
pub open spec fn map_kernel<T>(f: spec_fn(T) -> T, l: Launch<T>) -> Seq<Seq<T>> {
    device::writing(
        l,
        1,
        |x: int| x < l.words[2][0] && x < l.threads.0,
        |x: int| f(l.bufs[0][x]),
    )
}

/// A cast gives every element, cast.
pub proof fn law_casts_compute<T>(
    n: usize,
    f: spec_fn(T) -> T,
    g: spec_fn(T) -> T,
    device: spec_fn(Seq<char>, Launch<T>) -> Seq<Seq<T>>,
    mem: Memory<T>,
    x: int,
)
    requires
        forall|l: Launch<T>| #[trigger] device("cast_f32_to_bf16"@, l) == map_kernel(f, l),
        forall|l: Launch<T>| #[trigger] device("cast_bf16_to_f32"@, l) == map_kernel(g, l),
        n <= u32::MAX,
        mem.args.len() == 1,
        mem.temps.len() == 2,
        0 <= x < n,
    ensures
        mem.temps[0].len() * 2 == cast_down(n as nat).allocs[0].bytes ==> device::answer(
            device,
            cast_down(n as nat),
            mem,
        )[x] == f(mem.args[0][x]),
        mem.temps[0].len() * 4 == cast_up(n as nat).allocs[0].bytes ==> device::answer(
            device,
            cast_up(n as nat),
            mem,
        )[x] == g(mem.args[0][x]),
{
    let p = cast_down(n as nat);
    let q = cast_up(n as nat);
    device::lemma_single(device, p, mem);
    device::lemma_single(device, q, mem);
    reveal_with_fuel(device::left, 5);
    let l = device::seen(p, p.dispatches[0], mem);
    let k = device::seen(q, q.dispatches[0], mem);
    assert(l.words[2] == seq![n as u32] && k.words[2] == seq![n as u32]);
    assert(l.bufs[0] == mem.args[0] && k.bufs[0] == mem.args[0]);
    assert(l.bufs[1] == mem.temps[0] && k.bufs[1] == mem.temps[0]);
    assert(l.bufs.len() == 3 && k.bufs.len() == 3);
}

/// The product through 16-bit operands gives, at `[i, j]`, the widened sum of
/// the products of the narrowed operands.
#[verifier::rlimit(40)]
#[verifier::spinoff_prover]
pub proof fn law_via_bf16_computes<T>(
    m: usize,
    k: usize,
    n: usize,
    num: Num<T>,
    narrow: spec_fn(T) -> T,
    widen: spec_fn(T) -> T,
    device: spec_fn(Seq<char>, Launch<T>) -> Seq<Seq<T>>,
    mem: Memory<T>,
    i: int,
    j: int,
)
    requires
        forall|l: Launch<T>| #[trigger] device("cast_f32_to_bf16"@, l) == map_kernel(narrow, l),
        forall|l: Launch<T>| #[trigger] device("cast_bf16_to_f32"@, l) == map_kernel(widen, l),
        forall|l: Launch<T>| #[trigger]
            device("matmul_simdgroup_bf16"@, l) == product_kernel(num, false, false, 8, 64, l),
        m % 8 == 0 && k % 8 == 0 && n % 64 == 0,
        m <= u32::MAX && k <= u32::MAX && n <= u32::MAX,
        m * k <= u32::MAX && k * n <= u32::MAX && m * n <= u32::MAX,
        mem.args.len() == 2,
        mem.temps.len() == 8,
        mem.temps[0].len() * 2 == via_bf16(m, k, n).allocs[0].bytes,
        mem.temps[2].len() * 2 == via_bf16(m, k, n).allocs[2].bytes,
        mem.temps[4].len() * 2 == via_bf16(m, k, n).allocs[4].bytes,
        mem.temps[6].len() * 4 == via_bf16(m, k, n).allocs[6].bytes,
        0 <= i < m,
        0 <= j < n,
    ensures
        device::answer(device, via_bf16(m, k, n), mem)[i * n + j] == widen(
            num.sum(
                k as int,
                |l: int|
                    (num.mul)(narrow(mem.args[0][i * k + l]), narrow(mem.args[1][l * n + j])),
            ),
        ),
{
    let p = via_bf16(m, k, n);
    let t = Tiling::Narrow;
    lemma_tiles_reach(t, m, k, n, i, j);
    assert(m * k >= 0 && k * n >= 0 && m * n >= 0) by (nonlinear_arith);
    reveal_with_fuel(device::left, 6);
    let d0 = p.dispatches[0];
    let d1 = p.dispatches[1];
    let d2 = p.dispatches[2];
    let d3 = p.dispatches[3];
    let m1 = device::step(device, p, d0, mem);
    let m2 = device::step(device, p, d1, m1);
    let m3 = device::step(device, p, d2, m2);
    let m4 = device::step(device, p, d3, m3);
    assert(device::carried_out(device, p, mem) == m4) by {
        reveal_with_fuel(device::run, 5);
        assert(p.dispatches.len() == 4);
    }
    let l0 = device::seen(p, d0, mem);
    assert(l0.words[2] == seq![(m * k) as u32]);
    assert(l0.bufs[0] == mem.args[0] && l0.bufs[1] == mem.temps[0] && l0.bufs.len() == 3);
    let a = m1.temps[0];
    assert(forall|x: int|
        0 <= x < m * k ==> #[trigger] a[x] == narrow(mem.args[0][x]));
    assert(m1.args[1] == mem.args[1] && m1.temps[2] == mem.temps[2] && m1.temps[4]
        == mem.temps[4] && m1.temps[6] == mem.temps[6]);
    let l1 = device::seen(p, d1, m1);
    assert(l1.words[2] == seq![(k * n) as u32]);
    assert(l1.bufs[0] == m1.args[1] && l1.bufs[1] == m1.temps[2] && l1.bufs.len() == 3);
    let b = m2.temps[2];
    assert(forall|x: int| 0 <= x < k * n ==> #[trigger] b[x] == narrow(mem.args[1][x]));
    assert(m2.temps[0] == a && m2.temps[4] == mem.temps[4] && m2.temps[6] == mem.temps[6]);
    let l2 = device::seen(p, d2, m2);
    assert(l2.words[3] == seq![m as u32, k as u32, n as u32]);
    assert(l2.bufs[0] == a && l2.bufs[1] == b && l2.bufs[2] == m2.temps[4] && l2.bufs.len() == 4);
    let c = m3.temps[4];
    assert(m3.temps[6] == mem.temps[6]);
    let sum = product_at(num, false, false, a, b, m as int, k as int, n as int, i, j);
    assert(c[i * n + j] == sum);
    let f = |x: int|
        (num.mul)(narrow(mem.args[0][i * k + x]), narrow(mem.args[1][x * n + j]));
    assert forall|x: int| 0 <= x < k implies #[trigger] f(x) == (num.mul)(
        a[i * k + x],
        b[x * n + j],
    ) by {
        assert(0 <= i * k + x < m * k) by (nonlinear_arith)
            requires
                0 <= i < m,
                0 <= x < k,
        ;
        assert(0 <= x * n + j < k * n) by (nonlinear_arith)
            requires
                0 <= x < k,
                0 <= j < n,
        ;
        assert(a[i * k + x] == narrow(mem.args[0][i * k + x]));
        assert(b[x * n + j] == narrow(mem.args[1][x * n + j]));
    }
    lemma_product_at(num, false, false, a, b, m as int, k as int, n as int, i, j, f);
    let l3 = device::seen(p, d3, m3);
    assert(l3.words[2] == seq![(m * n) as u32]);
    assert(l3.bufs[0] == c && l3.bufs[1] == m3.temps[6] && l3.bufs.len() == 3);
    assert(m4.temps[6][i * n + j] == widen(c[i * n + j]));
}

} // verus!
