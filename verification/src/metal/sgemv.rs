//! Matrix-vector products with quantised weights.
//!
//! `k` is the length of the input vector and `n` the number of weight rows.
//! A super-block of a row holds 256 weights (32 for the 8-bit format), so `k`
//! is a multiple of that.
use crate::metal::dispatch;
use crate::metal::dispatch::{Dispatch, DispatchModel, Plan, PlanModel};
use crate::metal::error::{shape_mismatch, ErrorModel, MetalError};
use crate::text;
use crate::text::Text;
use vstd::prelude::*;

verus! {

/// The refusal of a call: an old device first, then sizes that are not
/// `valid`.
pub open spec fn refusal(
    metal3: bool,
    valid: bool,
    device: Seq<char>,
    shape: Seq<char>,
) -> Option<ErrorModel> {
    if !metal3 {
        Some(ErrorModel::Unsupported(device))
    } else if !valid {
        Some(ErrorModel::ShapeMismatch(shape))
    } else {
        None
    }
}

/// `name`, `head`, the numeral of `k`, `", N="`, the numeral of `n`, `tail`.
pub open spec fn kn_text(
    name: Seq<char>,
    head: Seq<char>,
    k: usize,
    n: usize,
    tail: Seq<char>,
) -> Seq<char> {
    name + head + text::decimal(k as nat) + ", N="@ + text::decimal(n as nat) + tail
}

fn refuse(
    metal3: bool,
    valid: bool,
    device: &str,
    suffix: &str,
    name: &str,
    head: &str,
    k: usize,
    n: usize,
    tail: &str,
) -> (r: Option<MetalError>)
    ensures
        match r {
            Some(e) => refusal(metal3, valid, device@ + suffix@, kn_text(name@, head@, k, n, tail@))
                == Some(e@),
            None => refusal(metal3, valid, device@ + suffix@, kn_text(name@, head@, k, n, tail@))
                is None,
        },
{
    if !metal3 {
        return Some(MetalError::Unsupported(Text::start(device).lit(suffix).finish()));
    }
    if !valid {
        return Some(
            shape_mismatch(
                Text::start(name).lit(head).num(k).lit(", N=").num(n).lit(tail),
            ),
        );
    }
    None
}

/// As `kn_text`, with a batch size behind it.
pub open spec fn knb_text(name: Seq<char>, k: usize, n: usize, b: usize) -> Seq<char> {
    name + ": K%256==0 required (K="@ + text::decimal(k as nat) + ", N="@ + text::decimal(n as nat)
        + ", B="@ + text::decimal(b as nat) + ")"@
}

fn refuse_batch(metal3: bool, name: &str, k: usize, n: usize, b: usize) -> (r: Option<MetalError>)
    ensures
        match r {
            Some(e) => refusal(
                metal3,
                batch_valid(k, n, b),
                name@ + " needs Metal3"@,
                knb_text(name@, k, n, b),
            ) == Some(e@),
            None => refusal(
                metal3,
                batch_valid(k, n, b),
                name@ + " needs Metal3"@,
                knb_text(name@, k, n, b),
            ) is None,
        },
{
    if !metal3 {
        return Some(MetalError::Unsupported(Text::start(name).lit(" needs Metal3").finish()));
    }
    if k == 0 || n == 0 || b == 0 || k % 256 != 0 {
        return Some(
            shape_mismatch(
                Text::start(name).lit(": K%256==0 required (K=").num(k).lit(", N=").num(n).lit(
                    ", B=",
                ).num(b).lit(")"),
            ),
        );
    }
    None
}

/// Nothing is empty and the rows consist of whole super-blocks of `block`.
pub open spec fn rows_valid(k: usize, n: usize, block: int) -> bool {
    k != 0 && n != 0 && k as int % block == 0
}

pub open spec fn batch_valid(k: usize, n: usize, b: usize) -> bool {
    k != 0 && n != 0 && b != 0 && k as int % 256 == 0
}

/// A launch on input, weights and output, with `k` and `n` passed inline.
pub open spec fn sgemv(name: Seq<char>, k: usize, n: usize) -> DispatchModel {
    DispatchModel::kernel(name, name).arg(0).arg(1).arg(2).words(seq![k as u32, n as u32])
}

fn plan_sgemv(name: &'static str, k: usize, n: usize) -> (r: Dispatch)
    ensures
        r@ == sgemv(name@, k, n),
{
    Dispatch::kernel(name, name).arg(0).arg(1).arg(2).words(dispatch::words2(k, n))
}

/// As `sgemv`, for `b` input vectors.
pub open spec fn sgemv_batch(name: Seq<char>, k: usize, n: usize, b: usize) -> DispatchModel {
    DispatchModel::kernel(name, name).arg(0).arg(1).arg(2).words(
        seq![k as u32, n as u32, b as u32],
    )
}

fn plan_sgemv_batch(name: &'static str, k: usize, n: usize, b: usize) -> (r: Dispatch)
    ensures
        r@ == sgemv_batch(name@, k, n, b),
{
    Dispatch::kernel(name, name).arg(0).arg(1).arg(2).words(dispatch::words3(k, n, b))
}

/// Number of simdgroups when each takes `rows` of the `n` rows.
pub open spec fn simdgroups(n: usize, rows: nat) -> nat {
    dispatch::ceil_div(n as nat, rows)
}

/// The plan of `sgemv_q4_k_f32_into`.
pub open spec fn sgemv_q4_k_into_plan(k: usize, n: usize) -> PlanModel {
    dispatch::only(sgemv("sgemv_q4_k_f32"@, k, n).threads(n as nat, 1, 64))
}

/// Row-major 4-bit weights, one thread per row.
pub fn sgemv_q4_k_f32_into(metal3: bool, k: usize, n: usize) -> (r: Result<Plan, MetalError>)
    ensures
        dispatch::planned(r) == dispatch::outcome(
            refusal(
                metal3,
                rows_valid(k, n, 256),
                "sgemv_q4_k_f32"@ + " needs MTLGPUFamily::Metal3 (M3+, A17 Pro+)"@,
                kn_text("sgemv_q4_k_f32"@, " needs K>=1, N>=1, K%256==0: got K="@, k, n, ""@),
            ),
            sgemv_q4_k_into_plan(k, n),
        ),
{
    let valid = k != 0 && n != 0 && k % 256 == 0;
    match refuse(
        metal3,
        valid,
        "sgemv_q4_k_f32",
        " needs MTLGPUFamily::Metal3 (M3+, A17 Pro+)",
        "sgemv_q4_k_f32",
        " needs K>=1, N>=1, K%256==0: got K=",
        k,
        n,
        "",
    ) {
        Some(e) => Err(e),
        None => Ok(dispatch::just(plan_sgemv("sgemv_q4_k_f32", k, n).threads(n as u64, 1, 64))),
    }
}

/// The plan of `sgemv_q4_k_f32_simdcoop_nr2_into`.
pub open spec fn sgemv_q4_k_simdcoop_nr2_into_plan(k: usize, n: usize) -> PlanModel {
    dispatch::only(
        sgemv("sgemv_q4_k_f32_simdcoop_nr2"@, k, n).threads(32 * simdgroups(n, 2), 1, 32),
    )
}

/// 4-bit weights, one simdgroup per two rows.
pub fn sgemv_q4_k_f32_simdcoop_nr2_into(
    metal3: bool,
    k: usize,
    n: usize,
) -> (r: Result<Plan, MetalError>)
    requires
        metal3 && rows_valid(k, n, 256) ==> 32 * simdgroups(n, 2) <= u64::MAX,
    ensures
        dispatch::planned(r) == dispatch::outcome(
            refusal(
                metal3,
                rows_valid(k, n, 256),
                "sgemv_q4_k_f32_simdcoop_nr2"@ + " needs Metal3"@,
                kn_text("sgemv_q4_k_f32_simdcoop_nr2"@, ": K%256==0 required (K="@, k, n, ")"@),
            ),
            sgemv_q4_k_simdcoop_nr2_into_plan(k, n),
        ),
{
    let valid = k != 0 && n != 0 && k % 256 == 0;
    match refuse(
        metal3,
        valid,
        "sgemv_q4_k_f32_simdcoop_nr2",
        " needs Metal3",
        "sgemv_q4_k_f32_simdcoop_nr2",
        ": K%256==0 required (K=",
        k,
        n,
        ")",
    ) {
        Some(e) => Err(e),
        None => Ok(
            dispatch::just(
                plan_sgemv("sgemv_q4_k_f32_simdcoop_nr2", k, n).threads(
                    32 * dispatch::div_ceil(n as u64, 2),
                    1,
                    32,
                ),
            ),
        ),
    }
}

/// The plan of `sgemv_q4_k_f32_lcpp_nr2_into`.
pub open spec fn sgemv_q4_k_lcpp_nr2_into_plan(k: usize, n: usize) -> PlanModel {
    dispatch::only(
        sgemv("sgemv_q4_k_f32_lcpp_nr2"@, k, n).threads(32 * simdgroups(n, 2), 1, 32),
    )
}

/// 4-bit weights, one simdgroup per two rows, with shared sub-blocks.
pub fn sgemv_q4_k_f32_lcpp_nr2_into(
    metal3: bool,
    k: usize,
    n: usize,
) -> (r: Result<Plan, MetalError>)
    requires
        metal3 && rows_valid(k, n, 256) ==> 32 * simdgroups(n, 2) <= u64::MAX,
    ensures
        dispatch::planned(r) == dispatch::outcome(
            refusal(
                metal3,
                rows_valid(k, n, 256),
                "sgemv_q4_k_f32_lcpp_nr2"@ + " needs Metal3"@,
                kn_text("sgemv_q4_k_f32_lcpp_nr2"@, ": K%256==0 required (K="@, k, n, ")"@),
            ),
            sgemv_q4_k_lcpp_nr2_into_plan(k, n),
        ),
{
    let valid = k != 0 && n != 0 && k % 256 == 0;
    match refuse(
        metal3,
        valid,
        "sgemv_q4_k_f32_lcpp_nr2",
        " needs Metal3",
        "sgemv_q4_k_f32_lcpp_nr2",
        ": K%256==0 required (K=",
        k,
        n,
        ")",
    ) {
        Some(e) => Err(e),
        None => Ok(
            dispatch::just(
                plan_sgemv("sgemv_q4_k_f32_lcpp_nr2", k, n).threads(
                    32 * dispatch::div_ceil(n as u64, 2),
                    1,
                    32,
                ),
            ),
        ),
    }
}

/// The plan of `sgemv_q4_k_f32_simdcoop_into`.
pub open spec fn sgemv_q4_k_simdcoop_into_plan(k: usize, n: usize) -> PlanModel {
    dispatch::only(sgemv("sgemv_q4_k_f32_simdcoop"@, k, n).threads((32 * n) as nat, 1, 32))
}

/// 4-bit weights, one simdgroup per row.
pub fn sgemv_q4_k_f32_simdcoop_into(
    metal3: bool,
    k: usize,
    n: usize,
) -> (r: Result<Plan, MetalError>)
    requires
        metal3 && rows_valid(k, n, 256) ==> 32 * n <= u64::MAX,
    ensures
        dispatch::planned(r) == dispatch::outcome(
            refusal(
                metal3,
                rows_valid(k, n, 256),
                "sgemv_q4_k_f32_simdcoop"@ + " needs Metal3"@,
                kn_text("sgemv_q4_k_f32_simdcoop"@, ": K%256==0 required (K="@, k, n, ")"@),
            ),
            sgemv_q4_k_simdcoop_into_plan(k, n),
        ),
{
    let valid = k != 0 && n != 0 && k % 256 == 0;
    match refuse(
        metal3,
        valid,
        "sgemv_q4_k_f32_simdcoop",
        " needs Metal3",
        "sgemv_q4_k_f32_simdcoop",
        ": K%256==0 required (K=",
        k,
        n,
        ")",
    ) {
        Some(e) => Err(e),
        None => Ok(
            dispatch::just(
                plan_sgemv("sgemv_q4_k_f32_simdcoop", k, n).threads(32 * n as u64, 1, 32),
            ),
        ),
    }
}

/// The plan of `sgemv_q4_k_f32_simdcoop_residual_into`.
pub open spec fn sgemv_q4_k_simdcoop_residual_into_plan(k: usize, n: usize) -> PlanModel {
    dispatch::only(
        sgemv("sgemv_q4_k_f32_simdcoop_residual"@, k, n).threads((32 * n) as nat, 1, 32),
    )
}

/// 4-bit weights, one simdgroup per row, added to the output.
pub fn sgemv_q4_k_f32_simdcoop_residual_into(
    metal3: bool,
    k: usize,
    n: usize,
) -> (r: Result<Plan, MetalError>)
    requires
        metal3 && rows_valid(k, n, 256) ==> 32 * n <= u64::MAX,
    ensures
        dispatch::planned(r) == dispatch::outcome(
            refusal(
                metal3,
                rows_valid(k, n, 256),
                "sgemv_q4_k_f32_simdcoop_residual"@ + " needs Metal3"@,
                kn_text(
                    "sgemv_q4_k_f32_simdcoop_residual"@,
                    ": K%256==0 required (K="@,
                    k,
                    n,
                    ")"@,
                ),
            ),
            sgemv_q4_k_simdcoop_residual_into_plan(k, n),
        ),
{
    let valid = k != 0 && n != 0 && k % 256 == 0;
    match refuse(
        metal3,
        valid,
        "sgemv_q4_k_f32_simdcoop_residual",
        " needs Metal3",
        "sgemv_q4_k_f32_simdcoop_residual",
        ": K%256==0 required (K=",
        k,
        n,
        ")",
    ) {
        Some(e) => Err(e),
        None => Ok(
            dispatch::just(
                plan_sgemv("sgemv_q4_k_f32_simdcoop_residual", k, n).threads(32 * n as u64, 1, 32),
            ),
        ),
    }
}

/// The plan of `sgemv_q4_k_f32_quadcoop_into`.
pub open spec fn sgemv_q4_k_quadcoop_into_plan(k: usize, n: usize) -> PlanModel {
    dispatch::only(
        sgemv("sgemv_q4_k_f32_quadcoop"@, k, n).threads(32 * simdgroups(n, 4), 1, 32),
    )
}

/// 4-bit weights, one simdgroup per four rows.
pub fn sgemv_q4_k_f32_quadcoop_into(
    metal3: bool,
    k: usize,
    n: usize,
) -> (r: Result<Plan, MetalError>)
    requires
        metal3 && rows_valid(k, n, 256) ==> 32 * simdgroups(n, 4) <= u64::MAX,
    ensures
        dispatch::planned(r) == dispatch::outcome(
            refusal(
                metal3,
                rows_valid(k, n, 256),
                "sgemv_q4_k_f32_quadcoop"@ + " needs Metal3"@,
                kn_text("sgemv_q4_k_f32_quadcoop"@, ": K%256==0 required (K="@, k, n, ")"@),
            ),
            sgemv_q4_k_quadcoop_into_plan(k, n),
        ),
{
    let valid = k != 0 && n != 0 && k % 256 == 0;
    match refuse(
        metal3,
        valid,
        "sgemv_q4_k_f32_quadcoop",
        " needs Metal3",
        "sgemv_q4_k_f32_quadcoop",
        ": K%256==0 required (K=",
        k,
        n,
        ")",
    ) {
        Some(e) => Err(e),
        None => Ok(
            dispatch::just(
                plan_sgemv("sgemv_q4_k_f32_quadcoop", k, n).threads(
                    32 * dispatch::div_ceil(n as u64, 4),
                    1,
                    32,
                ),
            ),
        ),
    }
}

/// The plan of `sgemv_q4_k_f32_lcpp_nsg2_into`.
pub open spec fn sgemv_q4_k_lcpp_nsg2_into_plan(k: usize, n: usize) -> PlanModel {
    if n % 4 != 0 {
        dispatch::only(
            sgemv("sgemv_q4_k_f32_lcpp_nr2"@, k, n).threads(32 * simdgroups(n, 2), 1, 32),
        )
    } else {
        dispatch::only(
            sgemv("sgemv_q4_k_f32_lcpp_nsg2"@, k, n).groups(simdgroups(n, 4), 64),
        )
    }
}

/// 4-bit weights, two simdgroups per threadgroup and four rows each
/// threadgroup. Where `n` is not a multiple of four the two-row kernel is
/// used instead.
pub fn sgemv_q4_k_f32_lcpp_nsg2_into(
    metal3: bool,
    k: usize,
    n: usize,
) -> (r: Result<Plan, MetalError>)
    requires
        metal3 && rows_valid(k, n, 256) && n % 4 != 0 ==> 32 * simdgroups(n, 2) <= u64::MAX,
    ensures
        dispatch::planned(r) == dispatch::outcome(
            refusal(
                metal3,
                rows_valid(k, n, 256),
                "sgemv_q4_k_f32_lcpp_nsg2"@ + " needs Metal3"@,
                kn_text("sgemv_q4_k_f32_lcpp_nsg2"@, ": K%256==0 required (K="@, k, n, ")"@),
            ),
            sgemv_q4_k_lcpp_nsg2_into_plan(k, n),
        ),
{
    let valid = k != 0 && n != 0 && k % 256 == 0;
    match refuse(
        metal3,
        valid,
        "sgemv_q4_k_f32_lcpp_nsg2",
        " needs Metal3",
        "sgemv_q4_k_f32_lcpp_nsg2",
        ": K%256==0 required (K=",
        k,
        n,
        ")",
    ) {
        Some(e) => Err(e),
        None => if n % 4 != 0 {
            sgemv_q4_k_f32_lcpp_nr2_into(metal3, k, n)
        } else {
            Ok(
                dispatch::just(
                    plan_sgemv("sgemv_q4_k_f32_lcpp_nsg2", k, n).groups(
                        dispatch::div_ceil(n as u64, 4),
                        64,
                    ),
                ),
            )
        },
    }
}

/// The plan of `sgemv_q4_k_f32_batch_into`.
pub open spec fn sgemv_q4_k_batch_into_plan(k: usize, n: usize, b: usize) -> PlanModel {
    dispatch::only(
        sgemv_batch("sgemv_q4_k_f32_batch"@, k, n, b).threads(n as nat, b as nat, 64),
    )
}

/// 4-bit weights and `b` input vectors, one thread per row and vector.
pub fn sgemv_q4_k_f32_batch_into(
    metal3: bool,
    k: usize,
    n: usize,
    b: usize,
) -> (r: Result<Plan, MetalError>)
    ensures
        dispatch::planned(r) == dispatch::outcome(
            refusal(
                metal3,
                batch_valid(k, n, b),
                "sgemv_q4_k_f32_batch"@ + " needs Metal3"@,
                knb_text("sgemv_q4_k_f32_batch"@, k, n, b),
            ),
            sgemv_q4_k_batch_into_plan(k, n, b),
        ),
{
    match refuse_batch(metal3, "sgemv_q4_k_f32_batch", k, n, b) {
        Some(e) => Err(e),
        None => Ok(
            dispatch::just(
                plan_sgemv_batch("sgemv_q4_k_f32_batch", k, n, b).threads(n as u64, b as u64, 64),
            ),
        ),
    }
}

/// The plan of `sgemv_q4_k_f32_lcpp_nr2_batch_into`.
pub open spec fn sgemv_q4_k_lcpp_nr2_batch_into_plan(k: usize, n: usize, b: usize) -> PlanModel {
    dispatch::only(
        sgemv_batch("sgemv_q4_k_f32_lcpp_nr2_batch"@, k, n, b).threads(
            (32 * (simdgroups(n, 2) * b)) as nat,
            1,
            32,
        ),
    )
}

/// 4-bit weights and `b` input vectors, one simdgroup per two rows and
/// vector.
pub fn sgemv_q4_k_f32_lcpp_nr2_batch_into(
    metal3: bool,
    k: usize,
    n: usize,
    b: usize,
) -> (r: Result<Plan, MetalError>)
    requires
        metal3 && batch_valid(k, n, b) ==> 32 * (simdgroups(n, 2) * b) <= u64::MAX,
    ensures
        dispatch::planned(r) == dispatch::outcome(
            refusal(
                metal3,
                batch_valid(k, n, b),
                "sgemv_q4_k_f32_lcpp_nr2_batch"@ + " needs Metal3"@,
                knb_text("sgemv_q4_k_f32_lcpp_nr2_batch"@, k, n, b),
            ),
            sgemv_q4_k_lcpp_nr2_batch_into_plan(k, n, b),
        ),
{
    match refuse_batch(metal3, "sgemv_q4_k_f32_lcpp_nr2_batch", k, n, b) {
        Some(e) => Err(e),
        None => {
            let pairs: u64 = dispatch::div_ceil(n as u64, 2);
            let n_tg: u64 = pairs * b as u64;
            Ok(
                dispatch::just(
                    plan_sgemv_batch(
                        "sgemv_q4_k_f32_lcpp_nr2_batch",
                        k,
                        n,
                        b,
                    ).threads(32 * n_tg, 1, 32),
                ),
            )
        },
    }
}

/// The plan of `sgemv_q4_k_f32_transposed_into`.
pub open spec fn sgemv_q4_k_transposed_into_plan(k: usize, n: usize) -> PlanModel {
    PlanModel::empty().uniform(8, seq![k as u32, n as u32]).launch(
        DispatchModel::kernel("sgemv_q4_k_f32_transposed"@, "sgemv_q4_k_f32_transposed"@)
            .arg(0)
            .arg(1)
            .arg(
            2,
        ).temp(0).threads(n as nat, 1, 64),
    )
}

/// 4-bit weights in block-major order, one thread per row.
pub fn sgemv_q4_k_f32_transposed_into(
    metal3: bool,
    k: usize,
    n: usize,
) -> (r: Result<Plan, MetalError>)
    ensures
        dispatch::planned(r) == dispatch::outcome(
            refusal(
                metal3,
                rows_valid(k, n, 256),
                "sgemv_q4_k_f32"@ + " needs MTLGPUFamily::Metal3 (M3+, A17 Pro+)"@,
                kn_text("sgemv_q4_k_f32_t"@, ": K%256==0 required (K="@, k, n, ")"@),
            ),
            sgemv_q4_k_transposed_into_plan(k, n),
        ),
{
    let valid = k != 0 && n != 0 && k % 256 == 0;
    match refuse(
        metal3,
        valid,
        "sgemv_q4_k_f32",
        " needs MTLGPUFamily::Metal3 (M3+, A17 Pro+)",
        "sgemv_q4_k_f32_t",
        ": K%256==0 required (K=",
        k,
        n,
        ")",
    ) {
        Some(e) => Err(e),
        None => {
            let d = Dispatch::kernel("sgemv_q4_k_f32_transposed", "sgemv_q4_k_f32_transposed")
                .arg(0)
                .arg(1)
                .arg(2)
                .temp(
                0,
            ).threads(n as u64, 1, 64);
            Ok(Plan::empty().uniform(8, dispatch::words2(k, n)).launch(d))
        },
    }
}

/// The plan of `sgemv_q4_k_f32`.
pub open spec fn sgemv_q4_k_plan(k: usize, n: usize) -> PlanModel {
    fresh_output("sgemv_q4_k_f32"@, k, n)
}

/// 4-bit weights, one thread per row, into a fresh output buffer.
pub fn sgemv_q4_k_f32(metal3: bool, k: usize, n: usize) -> (r: Result<Plan, MetalError>)
    requires
        metal3 && rows_valid(k, n, 256) ==> n * 4 <= usize::MAX,
    ensures
        dispatch::planned(r) == dispatch::outcome(
            refusal(
                metal3,
                rows_valid(k, n, 256),
                "sgemv_q4_k_f32"@ + " needs MTLGPUFamily::Metal3 (M3+, A17 Pro+)"@,
                kn_text("sgemv_q4_k_f32"@, " needs K>=1, N>=1, K%256==0: got K="@, k, n, ""@),
            ),
            sgemv_q4_k_plan(k, n),
        ),
{
    let valid = k != 0 && n != 0 && k % 256 == 0;
    match refuse(
        metal3,
        valid,
        "sgemv_q4_k_f32",
        " needs MTLGPUFamily::Metal3 (M3+, A17 Pro+)",
        "sgemv_q4_k_f32",
        " needs K>=1, N>=1, K%256==0: got K=",
        k,
        n,
        "",
    ) {
        Some(e) => Err(e),
        None => Ok(plan_fresh_output("sgemv_q4_k_f32", k, n)),
    }
}

/// The plan of `sgemv_q6_k_f32_into`.
pub open spec fn sgemv_q6_k_into_plan(k: usize, n: usize) -> PlanModel {
    dispatch::only(sgemv("sgemv_q6_k_f32"@, k, n).threads(n as nat, 1, 64))
}

/// Row-major 6-bit weights, one thread per row.
pub fn sgemv_q6_k_f32_into(metal3: bool, k: usize, n: usize) -> (r: Result<Plan, MetalError>)
    ensures
        dispatch::planned(r) == dispatch::outcome(
            refusal(
                metal3,
                rows_valid(k, n, 256),
                "sgemv_q6_k_f32"@ + " needs MTLGPUFamily::Metal3 (M3+, A17 Pro+)"@,
                kn_text("sgemv_q6_k_f32"@, " needs K>=1, N>=1, K%256==0: got K="@, k, n, ""@),
            ),
            sgemv_q6_k_into_plan(k, n),
        ),
{
    let valid = k != 0 && n != 0 && k % 256 == 0;
    match refuse(
        metal3,
        valid,
        "sgemv_q6_k_f32",
        " needs MTLGPUFamily::Metal3 (M3+, A17 Pro+)",
        "sgemv_q6_k_f32",
        " needs K>=1, N>=1, K%256==0: got K=",
        k,
        n,
        "",
    ) {
        Some(e) => Err(e),
        None => Ok(dispatch::just(plan_sgemv("sgemv_q6_k_f32", k, n).threads(n as u64, 1, 64))),
    }
}

/// The plan of `sgemv_q6_k_f32_simdcoop_nr2_into`.
pub open spec fn sgemv_q6_k_simdcoop_nr2_into_plan(k: usize, n: usize) -> PlanModel {
    dispatch::only(
        sgemv("sgemv_q6_k_f32_simdcoop_nr2"@, k, n).threads(32 * simdgroups(n, 2), 1, 32),
    )
}

/// 6-bit weights, one simdgroup per two rows.
pub fn sgemv_q6_k_f32_simdcoop_nr2_into(
    metal3: bool,
    k: usize,
    n: usize,
) -> (r: Result<Plan, MetalError>)
    requires
        metal3 && rows_valid(k, n, 256) ==> 32 * simdgroups(n, 2) <= u64::MAX,
    ensures
        dispatch::planned(r) == dispatch::outcome(
            refusal(
                metal3,
                rows_valid(k, n, 256),
                "sgemv_q6_k_f32_simdcoop_nr2"@ + " needs Metal3"@,
                kn_text("sgemv_q6_k_f32_simdcoop_nr2"@, ": K%256==0 required (K="@, k, n, ")"@),
            ),
            sgemv_q6_k_simdcoop_nr2_into_plan(k, n),
        ),
{
    let valid = k != 0 && n != 0 && k % 256 == 0;
    match refuse(
        metal3,
        valid,
        "sgemv_q6_k_f32_simdcoop_nr2",
        " needs Metal3",
        "sgemv_q6_k_f32_simdcoop_nr2",
        ": K%256==0 required (K=",
        k,
        n,
        ")",
    ) {
        Some(e) => Err(e),
        None => Ok(
            dispatch::just(
                plan_sgemv("sgemv_q6_k_f32_simdcoop_nr2", k, n).threads(
                    32 * dispatch::div_ceil(n as u64, 2),
                    1,
                    32,
                ),
            ),
        ),
    }
}

/// The plan of `sgemv_q6_k_f32_lcpp_nr2_into`.
pub open spec fn sgemv_q6_k_lcpp_nr2_into_plan(k: usize, n: usize) -> PlanModel {
    dispatch::only(
        sgemv("sgemv_q6_k_f32_lcpp_nr2"@, k, n).threads(32 * simdgroups(n, 2), 1, 32),
    )
}

/// 6-bit weights, one simdgroup per two rows, with shared sub-blocks.
pub fn sgemv_q6_k_f32_lcpp_nr2_into(
    metal3: bool,
    k: usize,
    n: usize,
) -> (r: Result<Plan, MetalError>)
    requires
        metal3 && rows_valid(k, n, 256) ==> 32 * simdgroups(n, 2) <= u64::MAX,
    ensures
        dispatch::planned(r) == dispatch::outcome(
            refusal(
                metal3,
                rows_valid(k, n, 256),
                "sgemv_q6_k_f32_lcpp_nr2"@ + " needs Metal3"@,
                kn_text("sgemv_q6_k_f32_lcpp_nr2"@, ": K%256==0 required (K="@, k, n, ")"@),
            ),
            sgemv_q6_k_lcpp_nr2_into_plan(k, n),
        ),
{
    let valid = k != 0 && n != 0 && k % 256 == 0;
    match refuse(
        metal3,
        valid,
        "sgemv_q6_k_f32_lcpp_nr2",
        " needs Metal3",
        "sgemv_q6_k_f32_lcpp_nr2",
        ": K%256==0 required (K=",
        k,
        n,
        ")",
    ) {
        Some(e) => Err(e),
        None => Ok(
            dispatch::just(
                plan_sgemv("sgemv_q6_k_f32_lcpp_nr2", k, n).threads(
                    32 * dispatch::div_ceil(n as u64, 2),
                    1,
                    32,
                ),
            ),
        ),
    }
}

/// The plan of `sgemv_q6_k_f32_simdcoop_into`.
pub open spec fn sgemv_q6_k_simdcoop_into_plan(k: usize, n: usize) -> PlanModel {
    dispatch::only(sgemv("sgemv_q6_k_f32_simdcoop"@, k, n).threads((32 * n) as nat, 1, 32))
}

/// 6-bit weights, one simdgroup per row.
pub fn sgemv_q6_k_f32_simdcoop_into(
    metal3: bool,
    k: usize,
    n: usize,
) -> (r: Result<Plan, MetalError>)
    requires
        metal3 && rows_valid(k, n, 256) ==> 32 * n <= u64::MAX,
    ensures
        dispatch::planned(r) == dispatch::outcome(
            refusal(
                metal3,
                rows_valid(k, n, 256),
                "sgemv_q6_k_f32_simdcoop"@ + " needs Metal3"@,
                kn_text("sgemv_q6_k_f32_simdcoop"@, ": K%256==0 required (K="@, k, n, ")"@),
            ),
            sgemv_q6_k_simdcoop_into_plan(k, n),
        ),
{
    let valid = k != 0 && n != 0 && k % 256 == 0;
    match refuse(
        metal3,
        valid,
        "sgemv_q6_k_f32_simdcoop",
        " needs Metal3",
        "sgemv_q6_k_f32_simdcoop",
        ": K%256==0 required (K=",
        k,
        n,
        ")",
    ) {
        Some(e) => Err(e),
        None => Ok(
            dispatch::just(
                plan_sgemv("sgemv_q6_k_f32_simdcoop", k, n).threads(32 * n as u64, 1, 32),
            ),
        ),
    }
}

/// The plan of `sgemv_q6_k_f32_simdcoop_residual_into`.
pub open spec fn sgemv_q6_k_simdcoop_residual_into_plan(k: usize, n: usize) -> PlanModel {
    dispatch::only(
        sgemv("sgemv_q6_k_f32_simdcoop_residual"@, k, n).threads((32 * n) as nat, 1, 32),
    )
}

/// 6-bit weights, one simdgroup per row, added to the output.
pub fn sgemv_q6_k_f32_simdcoop_residual_into(
    metal3: bool,
    k: usize,
    n: usize,
) -> (r: Result<Plan, MetalError>)
    requires
        metal3 && rows_valid(k, n, 256) ==> 32 * n <= u64::MAX,
    ensures
        dispatch::planned(r) == dispatch::outcome(
            refusal(
                metal3,
                rows_valid(k, n, 256),
                "sgemv_q6_k_f32_simdcoop_residual"@ + " needs Metal3"@,
                kn_text(
                    "sgemv_q6_k_f32_simdcoop_residual"@,
                    ": K%256==0 required (K="@,
                    k,
                    n,
                    ")"@,
                ),
            ),
            sgemv_q6_k_simdcoop_residual_into_plan(k, n),
        ),
{
    let valid = k != 0 && n != 0 && k % 256 == 0;
    match refuse(
        metal3,
        valid,
        "sgemv_q6_k_f32_simdcoop_residual",
        " needs Metal3",
        "sgemv_q6_k_f32_simdcoop_residual",
        ": K%256==0 required (K=",
        k,
        n,
        ")",
    ) {
        Some(e) => Err(e),
        None => Ok(
            dispatch::just(
                plan_sgemv("sgemv_q6_k_f32_simdcoop_residual", k, n).threads(32 * n as u64, 1, 32),
            ),
        ),
    }
}

/// The plan of `sgemv_q6_k_f32_lcpp_nsg2_into`.
pub open spec fn sgemv_q6_k_lcpp_nsg2_into_plan(k: usize, n: usize) -> PlanModel {
    if n % 4 != 0 {
        dispatch::only(
            sgemv("sgemv_q6_k_f32_lcpp_nr2"@, k, n).threads(32 * simdgroups(n, 2), 1, 32),
        )
    } else {
        dispatch::only(
            sgemv("sgemv_q6_k_f32_lcpp_nsg2"@, k, n).groups(simdgroups(n, 4), 64),
        )
    }
}

/// 6-bit weights, two simdgroups per threadgroup and four rows each
/// threadgroup. Where `n` is not a multiple of four the two-row kernel is
/// used instead.
pub fn sgemv_q6_k_f32_lcpp_nsg2_into(
    metal3: bool,
    k: usize,
    n: usize,
) -> (r: Result<Plan, MetalError>)
    requires
        metal3 && rows_valid(k, n, 256) && n % 4 != 0 ==> 32 * simdgroups(n, 2) <= u64::MAX,
    ensures
        dispatch::planned(r) == dispatch::outcome(
            refusal(
                metal3,
                rows_valid(k, n, 256),
                "sgemv_q6_k_f32_lcpp_nsg2"@ + " needs Metal3"@,
                kn_text("sgemv_q6_k_f32_lcpp_nsg2"@, ": K%256==0 required (K="@, k, n, ")"@),
            ),
            sgemv_q6_k_lcpp_nsg2_into_plan(k, n),
        ),
{
    let valid = k != 0 && n != 0 && k % 256 == 0;
    match refuse(
        metal3,
        valid,
        "sgemv_q6_k_f32_lcpp_nsg2",
        " needs Metal3",
        "sgemv_q6_k_f32_lcpp_nsg2",
        ": K%256==0 required (K=",
        k,
        n,
        ")",
    ) {
        Some(e) => Err(e),
        None => if n % 4 != 0 {
            sgemv_q6_k_f32_lcpp_nr2_into(metal3, k, n)
        } else {
            Ok(
                dispatch::just(
                    plan_sgemv("sgemv_q6_k_f32_lcpp_nsg2", k, n).groups(
                        dispatch::div_ceil(n as u64, 4),
                        64,
                    ),
                ),
            )
        },
    }
}

/// The plan of `sgemv_q6_k_f32_batch_into`.
pub open spec fn sgemv_q6_k_batch_into_plan(k: usize, n: usize, b: usize) -> PlanModel {
    dispatch::only(
        sgemv_batch("sgemv_q6_k_f32_batch"@, k, n, b).threads(n as nat, b as nat, 64),
    )
}

/// 6-bit weights and `b` input vectors, one thread per row and vector.
pub fn sgemv_q6_k_f32_batch_into(
    metal3: bool,
    k: usize,
    n: usize,
    b: usize,
) -> (r: Result<Plan, MetalError>)
    ensures
        dispatch::planned(r) == dispatch::outcome(
            refusal(
                metal3,
                batch_valid(k, n, b),
                "sgemv_q6_k_f32_batch"@ + " needs Metal3"@,
                knb_text("sgemv_q6_k_f32_batch"@, k, n, b),
            ),
            sgemv_q6_k_batch_into_plan(k, n, b),
        ),
{
    match refuse_batch(metal3, "sgemv_q6_k_f32_batch", k, n, b) {
        Some(e) => Err(e),
        None => Ok(
            dispatch::just(
                plan_sgemv_batch("sgemv_q6_k_f32_batch", k, n, b).threads(n as u64, b as u64, 64),
            ),
        ),
    }
}

/// The plan of `sgemv_q6_k_f32_lcpp_nr2_batch_into`.
pub open spec fn sgemv_q6_k_lcpp_nr2_batch_into_plan(k: usize, n: usize, b: usize) -> PlanModel {
    dispatch::only(
        sgemv_batch("sgemv_q6_k_f32_lcpp_nr2_batch"@, k, n, b).threads(
            (32 * (simdgroups(n, 2) * b)) as nat,
            1,
            32,
        ),
    )
}

/// 6-bit weights and `b` input vectors, one simdgroup per two rows and
/// vector.
pub fn sgemv_q6_k_f32_lcpp_nr2_batch_into(
    metal3: bool,
    k: usize,
    n: usize,
    b: usize,
) -> (r: Result<Plan, MetalError>)
    requires
        metal3 && batch_valid(k, n, b) ==> 32 * (simdgroups(n, 2) * b) <= u64::MAX,
    ensures
        dispatch::planned(r) == dispatch::outcome(
            refusal(
                metal3,
                batch_valid(k, n, b),
                "sgemv_q6_k_f32_lcpp_nr2_batch"@ + " needs Metal3"@,
                knb_text("sgemv_q6_k_f32_lcpp_nr2_batch"@, k, n, b),
            ),
            sgemv_q6_k_lcpp_nr2_batch_into_plan(k, n, b),
        ),
{
    match refuse_batch(metal3, "sgemv_q6_k_f32_lcpp_nr2_batch", k, n, b) {
        Some(e) => Err(e),
        None => {
            let pairs: u64 = dispatch::div_ceil(n as u64, 2);
            let n_tg: u64 = pairs * b as u64;
            Ok(
                dispatch::just(
                    plan_sgemv_batch(
                        "sgemv_q6_k_f32_lcpp_nr2_batch",
                        k,
                        n,
                        b,
                    ).threads(32 * n_tg, 1, 32),
                ),
            )
        },
    }
}

/// The plan of `sgemv_q6_k_f32_transposed_into`.
pub open spec fn sgemv_q6_k_transposed_into_plan(k: usize, n: usize) -> PlanModel {
    PlanModel::empty().uniform(8, seq![k as u32, n as u32]).launch(
        DispatchModel::kernel("sgemv_q6_k_f32_transposed"@, "sgemv_q6_k_f32_transposed"@)
            .arg(0)
            .arg(1)
            .arg(
            2,
        ).temp(0).threads(n as nat, 1, 64),
    )
}

/// 6-bit weights in block-major order, one thread per row.
pub fn sgemv_q6_k_f32_transposed_into(
    metal3: bool,
    k: usize,
    n: usize,
) -> (r: Result<Plan, MetalError>)
    ensures
        dispatch::planned(r) == dispatch::outcome(
            refusal(
                metal3,
                rows_valid(k, n, 256),
                "sgemv_q6_k_f32"@ + " needs MTLGPUFamily::Metal3 (M3+, A17 Pro+)"@,
                kn_text("sgemv_q6_k_f32_t"@, ": K%256==0 required (K="@, k, n, ")"@),
            ),
            sgemv_q6_k_transposed_into_plan(k, n),
        ),
{
    let valid = k != 0 && n != 0 && k % 256 == 0;
    match refuse(
        metal3,
        valid,
        "sgemv_q6_k_f32",
        " needs MTLGPUFamily::Metal3 (M3+, A17 Pro+)",
        "sgemv_q6_k_f32_t",
        ": K%256==0 required (K=",
        k,
        n,
        ")",
    ) {
        Some(e) => Err(e),
        None => {
            let d = Dispatch::kernel("sgemv_q6_k_f32_transposed", "sgemv_q6_k_f32_transposed")
                .arg(0)
                .arg(1)
                .arg(2)
                .temp(
                0,
            ).threads(n as u64, 1, 64);
            Ok(Plan::empty().uniform(8, dispatch::words2(k, n)).launch(d))
        },
    }
}

/// The plan of `sgemv_q6_k_f32`.
pub open spec fn sgemv_q6_k_plan(k: usize, n: usize) -> PlanModel {
    fresh_output("sgemv_q6_k_f32"@, k, n)
}

/// 6-bit weights, one thread per row, into a fresh output buffer.
pub fn sgemv_q6_k_f32(metal3: bool, k: usize, n: usize) -> (r: Result<Plan, MetalError>)
    requires
        metal3 && rows_valid(k, n, 256) ==> n * 4 <= usize::MAX,
    ensures
        dispatch::planned(r) == dispatch::outcome(
            refusal(
                metal3,
                rows_valid(k, n, 256),
                "sgemv_q6_k_f32"@ + " needs MTLGPUFamily::Metal3 (M3+, A17 Pro+)"@,
                kn_text("sgemv_q6_k_f32"@, " needs K>=1, N>=1, K%256==0: got K="@, k, n, ""@),
            ),
            sgemv_q6_k_plan(k, n),
        ),
{
    let valid = k != 0 && n != 0 && k % 256 == 0;
    match refuse(
        metal3,
        valid,
        "sgemv_q6_k_f32",
        " needs MTLGPUFamily::Metal3 (M3+, A17 Pro+)",
        "sgemv_q6_k_f32",
        " needs K>=1, N>=1, K%256==0: got K=",
        k,
        n,
        "",
    ) {
        Some(e) => Err(e),
        None => Ok(plan_fresh_output("sgemv_q6_k_f32", k, n)),
    }
}

/// The plan of `sgemv_q5_k_f32_lcpp_nsg2_into`.
pub open spec fn sgemv_q5_k_lcpp_nsg2_into_plan(k: usize, n: usize) -> PlanModel {
    dispatch::only(sgemv("sgemv_q5_k_f32_lcpp_nsg2"@, k, n).groups(simdgroups(n, 2), 64))
}

/// 5-bit weights, two rows per threadgroup.
pub fn sgemv_q5_k_f32_lcpp_nsg2_into(
    metal3: bool,
    k: usize,
    n: usize,
) -> (r: Result<Plan, MetalError>)
    ensures
        dispatch::planned(r) == dispatch::outcome(
            refusal(
                metal3,
                rows_valid(k, n, 256),
                "sgemv_q5_k_f32_lcpp_nsg2"@ + " needs Metal3"@,
                kn_text("sgemv_q5_k_f32_lcpp_nsg2"@, ": K%256==0 required (K="@, k, n, ")"@),
            ),
            sgemv_q5_k_lcpp_nsg2_into_plan(k, n),
        ),
{
    let valid = k != 0 && n != 0 && k % 256 == 0;
    match refuse(
        metal3,
        valid,
        "sgemv_q5_k_f32_lcpp_nsg2",
        " needs Metal3",
        "sgemv_q5_k_f32_lcpp_nsg2",
        ": K%256==0 required (K=",
        k,
        n,
        ")",
    ) {
        Some(e) => Err(e),
        None => Ok(
            dispatch::just(
                plan_sgemv("sgemv_q5_k_f32_lcpp_nsg2", k, n).groups(
                    dispatch::div_ceil(n as u64, 2),
                    64,
                ),
            ),
        ),
    }
}

/// The plan of `sgemv_q8_0_f32_lcpp_nsg2_into`.
pub open spec fn sgemv_q8_0_lcpp_nsg2_into_plan(k: usize, n: usize) -> PlanModel {
    dispatch::only(sgemv("sgemv_q8_0_f32_lcpp_nsg2"@, k, n).groups(simdgroups(n, 4), 64))
}

/// 8-bit weights, four rows per threadgroup.
pub fn sgemv_q8_0_f32_lcpp_nsg2_into(
    metal3: bool,
    k: usize,
    n: usize,
) -> (r: Result<Plan, MetalError>)
    ensures
        dispatch::planned(r) == dispatch::outcome(
            refusal(
                metal3,
                rows_valid(k, n, 32),
                "sgemv_q8_0_f32_lcpp_nsg2"@ + " needs Metal3"@,
                kn_text("sgemv_q8_0_f32_lcpp_nsg2"@, ": K%32==0 required (K="@, k, n, ")"@),
            ),
            sgemv_q8_0_lcpp_nsg2_into_plan(k, n),
        ),
{
    let valid = k != 0 && n != 0 && k % 32 == 0;
    match refuse(
        metal3,
        valid,
        "sgemv_q8_0_f32_lcpp_nsg2",
        " needs Metal3",
        "sgemv_q8_0_f32_lcpp_nsg2",
        ": K%32==0 required (K=",
        k,
        n,
        ")",
    ) {
        Some(e) => Err(e),
        None => Ok(
            dispatch::just(
                plan_sgemv("sgemv_q8_0_f32_lcpp_nsg2", k, n).groups(
                    dispatch::div_ceil(n as u64, 4),
                    64,
                ),
            ),
        ),
    }
}

/// A launch that writes a fresh buffer of `n` single-precision elements and
/// takes `k` and `n` from a buffer.
pub open spec fn fresh_output(name: Seq<char>, k: usize, n: usize) -> PlanModel {
    PlanModel::empty().buffer((n * 4) as nat).uniform(8, seq![k as u32, n as u32]).launch(
        DispatchModel::kernel(name, name).arg(0).arg(1).temp(0).temp(1).threads(n as nat, 1, 64),
    ).returning(0)
}

fn plan_fresh_output(name: &'static str, k: usize, n: usize) -> (r: Plan)
    requires
        n * 4 <= usize::MAX,
    ensures
        r@ == fresh_output(name@, k, n),
{
    let d = Dispatch::kernel(name, name).arg(0).arg(1).temp(0).temp(1).threads(n as u64, 1, 64);
    Plan::empty().buffer(n * 4).uniform(8, dispatch::words2(k, n)).launch(d).returning(0)
}

/// The plan of `sgemv_f32_simd`.
pub open spec fn sgemv_simd_plan(k: usize, n: usize) -> PlanModel {
    fresh_output("sgemv_f32_simd"@, k, n)
}

/// Single-precision weights of shape `[k, n]`, one thread per column.
pub fn sgemv_f32_simd(metal3: bool, k: usize, n: usize) -> (r: Result<Plan, MetalError>)
    requires
        metal3 && k != 0 && n != 0 ==> n * 4 <= usize::MAX,
    ensures
        dispatch::planned(r) == dispatch::outcome(
            refusal(
                metal3,
                k != 0 && n != 0,
                "sgemv_f32_simd"@ + " needs MTLGPUFamily::Metal3 (M3+, A17 Pro+)"@,
                kn_text("sgemv_f32_simd"@, " needs K >= 1, N >= 1: got K="@, k, n, ""@),
            ),
            sgemv_simd_plan(k, n),
        ),
{
    let valid = k != 0 && n != 0;
    match refuse(
        metal3,
        valid,
        "sgemv_f32_simd",
        " needs MTLGPUFamily::Metal3 (M3+, A17 Pro+)",
        "sgemv_f32_simd",
        " needs K >= 1, N >= 1: got K=",
        k,
        n,
        "",
    ) {
        Some(e) => Err(e),
        None => Ok(plan_fresh_output("sgemv_f32_simd", k, n)),
    }
}

/// A fused launch of three products on one input: the caller's buffers are
/// the input, three weight matrices and three outputs.
pub open spec fn triple(
    name: Seq<char>,
    k: usize,
    n_q: usize,
    n_k: usize,
    n_v: usize,
) -> DispatchModel {
    DispatchModel::kernel(name, name).arg(0).arg(1).arg(2).arg(3).arg(4).arg(5).arg(6).words(
        seq![k as u32, n_q as u32, n_k as u32, n_v as u32],
    )
}

/// A fused launch of two products: as a triple whose third matrix has no
/// rows. The caller's buffers are the input, two weight matrices and two
/// outputs; the empty third slot repeats the second.
pub open spec fn pair(name: Seq<char>, k: usize, n_a: usize, n_b: usize) -> DispatchModel {
    DispatchModel::kernel(name, name).arg(0).arg(1).arg(2).arg(2).arg(3).arg(4).arg(4).words(
        seq![k as u32, n_a as u32, n_b as u32, 0u32],
    )
}

fn plan_triple(
    name: &'static str,
    is_pair: bool,
    k: usize,
    n_q: usize,
    n_k: usize,
    n_v: usize,
) -> (r: Dispatch)
    requires
        is_pair ==> n_v == 0,
    ensures
        r@ == if is_pair { pair(name@, k, n_q, n_k) } else { triple(name@, k, n_q, n_k, n_v) },
{
    let d = Dispatch::kernel(name, name).arg(0).arg(1).arg(2);
    let d2 = if is_pair {
        d.arg(2).arg(3).arg(4).arg(4)
    } else {
        d.arg(3).arg(4).arg(5).arg(6)
    };
    d2.words(dispatch::words4(k, n_q, n_k, n_v))
}

/// The refusal of a fused launch.
pub open spec fn fused_refusal(metal3: bool, name: Seq<char>, k: usize) -> Option<ErrorModel> {
    refusal(
        metal3,
        k as int % 256 == 0,
        name + " needs Metal3"@,
        name + ": K%256==0 required (K="@ + text::decimal(k as nat) + ")"@,
    )
}

fn refuse_fused(metal3: bool, name: &str, k: usize) -> (r: Option<MetalError>)
    ensures
        match r {
            Some(e) => fused_refusal(metal3, name@, k) == Some(e@),
            None => fused_refusal(metal3, name@, k) is None,
        },
{
    if !metal3 {
        return Some(MetalError::Unsupported(Text::start(name).lit(" needs Metal3").finish()));
    }
    if k % 256 != 0 {
        return Some(
            shape_mismatch(Text::start(name).lit(": K%256==0 required (K=").num(k).lit(")")),
        );
    }
    None
}

/// The plan of `sgemv_q4_k_f32_triple_into`.
pub open spec fn sgemv_q4_k_triple_into_plan(k: usize, n_q: usize, n_k: usize, n_v: usize) -> PlanModel {
    dispatch::only(
        triple(
            "sgemv_q4_k_f32_triple"@,
            k,
            n_q,
            n_k,
            n_v,
        ).threads((n_q + n_k + n_v) as nat, 1, 64),
    )
}

/// Three 4-bit products on one input in one launch, one thread per row.
pub fn sgemv_q4_k_f32_triple_into(
    metal3: bool,
    k: usize,
    n_q: usize,
    n_k: usize,
    n_v: usize,
) -> (r: Result<Plan, MetalError>)
    requires
        metal3 && k % 256 == 0 ==> (n_q + n_k + n_v) <= usize::MAX,
    ensures
        dispatch::planned(r) == dispatch::outcome(
            fused_refusal(metal3, "sgemv_q4_k_f32_triple"@, k),
            sgemv_q4_k_triple_into_plan(k, n_q, n_k, n_v),
        ),
{
    match refuse_fused(metal3, "sgemv_q4_k_f32_triple", k) {
        Some(e) => Err(e),
        None => {
            let total: usize = n_q + n_k + n_v;
            let d = plan_triple("sgemv_q4_k_f32_triple", false, k, n_q, n_k, n_v);
            Ok(dispatch::just(d.threads(total as u64, 1, 64)))
        },
    }
}

/// The plan of `sgemv_q4_k_f32_pair_into`.
pub open spec fn sgemv_q4_k_pair_into_plan(k: usize, n_a: usize, n_b: usize) -> PlanModel {
    dispatch::only(
        pair("sgemv_q4_k_f32_triple"@, k, n_a, n_b).threads((n_a + n_b) as nat, 1, 64),
    )
}

/// Two 4-bit products on one input in one launch, one thread per row.
pub fn sgemv_q4_k_f32_pair_into(
    metal3: bool,
    k: usize,
    n_a: usize,
    n_b: usize,
) -> (r: Result<Plan, MetalError>)
    requires
        metal3 && k % 256 == 0 ==> (n_a + n_b) <= usize::MAX,
    ensures
        dispatch::planned(r) == dispatch::outcome(
            fused_refusal(metal3, "sgemv_q4_k_f32_triple"@, k),
            sgemv_q4_k_pair_into_plan(k, n_a, n_b),
        ),
{
    match refuse_fused(metal3, "sgemv_q4_k_f32_triple", k) {
        Some(e) => Err(e),
        None => {
            let total: usize = n_a + n_b;
            let d = plan_triple("sgemv_q4_k_f32_triple", true, k, n_a, n_b, 0);
            Ok(dispatch::just(d.threads(total as u64, 1, 64)))
        },
    }
}

/// The plan of `sgemv_q4_k_f32_triple_quadcoop_into`.
pub open spec fn sgemv_q4_k_triple_quadcoop_into_plan(k: usize, n_q: usize, n_k: usize, n_v: usize) -> PlanModel {
    dispatch::only(
        triple("sgemv_q4_k_f32_triple_quadcoop"@, k, n_q, n_k, n_v).threads(
            32 * dispatch::ceil_div((n_q + n_k + n_v) as nat, 4),
            1,
            32,
        ),
    )
}

/// Three 4-bit products on one input in one launch, one simdgroup per four rows.
pub fn sgemv_q4_k_f32_triple_quadcoop_into(
    metal3: bool,
    k: usize,
    n_q: usize,
    n_k: usize,
    n_v: usize,
) -> (r: Result<Plan, MetalError>)
    requires
        metal3 && k % 256 == 0 ==> (n_q + n_k + n_v) <= usize::MAX && 32 * dispatch::ceil_div(
            (n_q + n_k + n_v) as nat,
            4,
        ) <= u64::MAX,
    ensures
        dispatch::planned(r) == dispatch::outcome(
            fused_refusal(metal3, "sgemv_q4_k_f32_triple_quadcoop"@, k),
            sgemv_q4_k_triple_quadcoop_into_plan(k, n_q, n_k, n_v),
        ),
{
    match refuse_fused(metal3, "sgemv_q4_k_f32_triple_quadcoop", k) {
        Some(e) => Err(e),
        None => {
            let total: usize = n_q + n_k + n_v;
            let d = plan_triple("sgemv_q4_k_f32_triple_quadcoop", false, k, n_q, n_k, n_v);
            Ok(dispatch::just(d.threads(32 * dispatch::div_ceil(total as u64, 4), 1, 32)))
        },
    }
}

/// The plan of `sgemv_q4_k_f32_pair_quadcoop_into`.
pub open spec fn sgemv_q4_k_pair_quadcoop_into_plan(k: usize, n_a: usize, n_b: usize) -> PlanModel {
    dispatch::only(
        pair("sgemv_q4_k_f32_triple_quadcoop"@, k, n_a, n_b).threads(
            32 * dispatch::ceil_div((n_a + n_b) as nat, 4),
            1,
            32,
        ),
    )
}

/// Two 4-bit products on one input in one launch, one simdgroup per four rows.
pub fn sgemv_q4_k_f32_pair_quadcoop_into(
    metal3: bool,
    k: usize,
    n_a: usize,
    n_b: usize,
) -> (r: Result<Plan, MetalError>)
    requires
        metal3 && k % 256 == 0 ==> (n_a + n_b) <= usize::MAX && 32 * dispatch::ceil_div(
            (n_a + n_b) as nat,
            4,
        ) <= u64::MAX,
    ensures
        dispatch::planned(r) == dispatch::outcome(
            fused_refusal(metal3, "sgemv_q4_k_f32_triple_quadcoop"@, k),
            sgemv_q4_k_pair_quadcoop_into_plan(k, n_a, n_b),
        ),
{
    match refuse_fused(metal3, "sgemv_q4_k_f32_triple_quadcoop", k) {
        Some(e) => Err(e),
        None => {
            let total: usize = n_a + n_b;
            let d = plan_triple("sgemv_q4_k_f32_triple_quadcoop", true, k, n_a, n_b, 0);
            Ok(dispatch::just(d.threads(32 * dispatch::div_ceil(total as u64, 4), 1, 32)))
        },
    }
}

/// The plan of `sgemv_q4_k_f32_triple_simdcoop_into`.
pub open spec fn sgemv_q4_k_triple_simdcoop_into_plan(k: usize, n_q: usize, n_k: usize, n_v: usize) -> PlanModel {
    dispatch::only(
        triple(
            "sgemv_q4_k_f32_triple_simdcoop"@,
            k,
            n_q,
            n_k,
            n_v,
        ).threads((32 * (n_q + n_k + n_v)) as nat, 1, 32),
    )
}

/// Three 4-bit products on one input in one launch, one simdgroup per row.
pub fn sgemv_q4_k_f32_triple_simdcoop_into(
    metal3: bool,
    k: usize,
    n_q: usize,
    n_k: usize,
    n_v: usize,
) -> (r: Result<Plan, MetalError>)
    requires
        metal3 && k % 256 == 0 ==> n_q + n_k + n_v <= usize::MAX
            && 32 * (n_q + n_k + n_v) <= u64::MAX,
    ensures
        dispatch::planned(r) == dispatch::outcome(
            fused_refusal(metal3, "sgemv_q4_k_f32_triple_simdcoop"@, k),
            sgemv_q4_k_triple_simdcoop_into_plan(k, n_q, n_k, n_v),
        ),
{
    match refuse_fused(metal3, "sgemv_q4_k_f32_triple_simdcoop", k) {
        Some(e) => Err(e),
        None => {
            let total: usize = n_q + n_k + n_v;
            let d = plan_triple("sgemv_q4_k_f32_triple_simdcoop", false, k, n_q, n_k, n_v);
            Ok(dispatch::just(d.threads(32 * total as u64, 1, 32)))
        },
    }
}

/// The plan of `sgemv_q4_k_f32_pair_simdcoop_into`.
pub open spec fn sgemv_q4_k_pair_simdcoop_into_plan(k: usize, n_a: usize, n_b: usize) -> PlanModel {
    dispatch::only(
        pair(
            "sgemv_q4_k_f32_triple_simdcoop"@,
            k,
            n_a,
            n_b,
        ).threads((32 * (n_a + n_b)) as nat, 1, 32),
    )
}

/// Two 4-bit products on one input in one launch, one simdgroup per row.
pub fn sgemv_q4_k_f32_pair_simdcoop_into(
    metal3: bool,
    k: usize,
    n_a: usize,
    n_b: usize,
) -> (r: Result<Plan, MetalError>)
    requires
        metal3 && k % 256 == 0 ==> (n_a + n_b) <= usize::MAX && 32 * (n_a + n_b) <= u64::MAX,
    ensures
        dispatch::planned(r) == dispatch::outcome(
            fused_refusal(metal3, "sgemv_q4_k_f32_triple_simdcoop"@, k),
            sgemv_q4_k_pair_simdcoop_into_plan(k, n_a, n_b),
        ),
{
    match refuse_fused(metal3, "sgemv_q4_k_f32_triple_simdcoop", k) {
        Some(e) => Err(e),
        None => {
            let total: usize = n_a + n_b;
            let d = plan_triple("sgemv_q4_k_f32_triple_simdcoop", true, k, n_a, n_b, 0);
            Ok(dispatch::just(d.threads(32 * total as u64, 1, 32)))
        },
    }
}

/// However many rows a simdgroup takes, together the simdgroups take all of
/// them, and none is launched for nothing.
pub proof fn law_rows_covered(n: usize, rows: nat)
    requires
        rows > 0,
    ensures
        simdgroups(n, rows) * rows >= n,
        n > 0 ==> (simdgroups(n, rows) - 1) * rows < n,
{
    dispatch::law_ceil_div(n as nat, rows);
}

} // verus!
