//! Kernels of a gated delta-net block and of expert mixing.
use crate::metal::dispatch;
use crate::metal::dispatch::{Dispatch, DispatchModel, Plan, PlanModel};
use crate::metal::error::{shape_mismatch, ErrorModel, MetalError};
use crate::text;
use crate::text::Text;
use vstd::prelude::*;

verus! {

/// The plan of `ssm_conv1d_step_f32`.
pub open spec fn ssm_conv1d_step_plan(kernel_size: usize, conv_dim: usize) -> PlanModel {
    dispatch::only(
        DispatchModel::kernel("ssm_conv1d_step_f32"@, "ssm_conv1d_step_f32"@)
            .arg(0)
            .arg(1)
            .arg(2)
            .arg(3)
            .words(seq![kernel_size as u32, conv_dim as u32])
            .threads(conv_dim as nat, 1, 64),
    )
}

/// One step of a depth-wise causal convolution with its history. The kernel
/// passes each channel's sum through `silu` before it writes it out.
pub fn ssm_conv1d_step_f32(kernel_size: usize, conv_dim: usize) -> (r: Result<Plan, MetalError>)
    ensures
        dispatch::planned(r) == if kernel_size == 0 || conv_dim == 0 {
            Err(
                ErrorModel::ShapeMismatch(
                    "ssm_conv1d_step_f32: kernel_size="@ + text::decimal(
                        kernel_size as nat,
                    ) + ", conv_dim="@ + text::decimal(conv_dim as nat),
                ),
            )
        } else {
            Ok(ssm_conv1d_step_plan(kernel_size, conv_dim))
        },
{
    if kernel_size == 0 || conv_dim == 0 {
        return Err(
            shape_mismatch(
                Text::start("ssm_conv1d_step_f32: kernel_size=")
                    .num(kernel_size)
                    .lit(", conv_dim=")
                    .num(conv_dim),
            ),
        );
    }
    Ok(
        dispatch::just(
            Dispatch::kernel("ssm_conv1d_step_f32", "ssm_conv1d_step_f32")
                .arg(0)
                .arg(1)
                .arg(2)
                .arg(3)
                .words(dispatch::words2(kernel_size, conv_dim))
                .threads(conv_dim as u64, 1, 64),
        ),
    )
}

/// The plan of `l2_norm_per_head_f32`.
pub open spec fn l2_norm_per_head_plan(n_heads: usize, head_dim: usize, eps_bits: u32) -> PlanModel {
    dispatch::only(
        DispatchModel::kernel("l2_norm_per_head_f32"@, "l2_norm_per_head_f32"@)
            .arg(0)
            .words(seq![n_heads as u32, head_dim as u32])
            .words(seq![eps_bits])
            .threads((32 * n_heads) as nat, 1, 32),
    )
}

/// Euclidean normalisation of each head in place, one simdgroup per head.
pub fn l2_norm_per_head_f32(
    n_heads: usize,
    head_dim: usize,
    eps_bits: u32,
) -> (r: Result<Plan, MetalError>)
    requires
        32 * n_heads <= u64::MAX,
    ensures
        dispatch::planned(r) == Ok::<PlanModel, ErrorModel>(l2_norm_per_head_plan(n_heads, head_dim, eps_bits)),
{
    Ok(
        dispatch::just(
            Dispatch::kernel("l2_norm_per_head_f32", "l2_norm_per_head_f32")
                .arg(0)
                .words(dispatch::words2(n_heads, head_dim))
                .words(dispatch::bits(eps_bits))
                .threads(32 * n_heads as u64, 1, 32),
        ),
    )
}

/// The plan of `delta_net_step_f32`.
pub open spec fn delta_net_step_plan(n_v_heads: usize, head_dim: usize, n_k_heads: usize) -> PlanModel {
    dispatch::only(
        DispatchModel::kernel("delta_net_step_f32"@, "delta_net_step_f32"@)
            .arg(0)
            .arg(1)
            .arg(2)
            .arg(3)
            .arg(4)
            .arg(5)
            .arg(6)
            .words(
                seq![
                    n_v_heads as u32,
                    head_dim as u32,
                    n_k_heads as u32,
                    (n_v_heads / n_k_heads) as u32,
                ],
            )
            .threads((32 * head_dim) as nat, n_v_heads as nat, 32),
    )
}

/// One step of the gated delta rule: state update and read-out. Each of the
/// `n_k_heads` key heads serves `n_v_heads / n_k_heads` value heads: value head
/// `h` reads key head `h % n_k_heads`.
pub fn delta_net_step_f32(
    n_v_heads: usize,
    head_dim: usize,
    n_k_heads: usize,
) -> (r: Result<Plan, MetalError>)
    requires
        !(n_v_heads == 0 || head_dim == 0 || n_k_heads == 0 || n_v_heads % n_k_heads != 0)
            ==> 32 * head_dim <= u64::MAX,
    ensures
        dispatch::planned(r) == if n_v_heads == 0 || head_dim == 0 || n_k_heads
            == 0 || n_v_heads % n_k_heads != 0 {
            Err(
                ErrorModel::ShapeMismatch(
                    "delta_net_step_f32: n_v_heads="@ + text::decimal(
                        n_v_heads as nat,
                    ) + " must be a multiple of n_k_heads="@ + text::decimal(n_k_heads as nat) + ", head_dim="@ + text::decimal(head_dim as nat),
                ),
            )
        } else {
            Ok(delta_net_step_plan(n_v_heads, head_dim, n_k_heads))
        },
{
    if n_v_heads == 0 || head_dim == 0 || n_k_heads == 0 || n_v_heads % n_k_heads != 0 {
        return Err(
            shape_mismatch(
                Text::start("delta_net_step_f32: n_v_heads=")
                    .num(n_v_heads)
                    .lit(" must be a multiple of n_k_heads=")
                    .num(n_k_heads)
                    .lit(", head_dim=")
                    .num(head_dim),
            ),
        );
    }
    Ok(
        dispatch::just(
            Dispatch::kernel("delta_net_step_f32", "delta_net_step_f32")
                .arg(0)
                .arg(1)
                .arg(2)
                .arg(3)
                .arg(4)
                .arg(5)
                .arg(6)
                .words(dispatch::words4(n_v_heads, head_dim, n_k_heads, (n_v_heads / n_k_heads)))
                .threads(32 * head_dim as u64, n_v_heads as u64, 32),
        ),
    )
}

/// The plan of `rms_norm_per_head_gated_f32`.
pub open spec fn rms_norm_per_head_gated_plan(n_heads: usize, head_dim: usize, eps_bits: u32) -> PlanModel {
    dispatch::only(
        DispatchModel::kernel("rms_norm_per_head_gated_f32"@, "rms_norm_per_head_gated_f32"@)
            .arg(0)
            .arg(1)
            .arg(2)
            .words(seq![n_heads as u32, head_dim as u32])
            .words(seq![eps_bits])
            .threads((32 * n_heads) as nat, 1, 32),
    )
}

/// Normalisation of each head, gated by `silu(z)`, one simdgroup per head.
pub fn rms_norm_per_head_gated_f32(
    n_heads: usize,
    head_dim: usize,
    eps_bits: u32,
) -> (r: Result<Plan, MetalError>)
    requires
        32 * n_heads <= u64::MAX,
    ensures
        dispatch::planned(r) == Ok::<PlanModel, ErrorModel>(rms_norm_per_head_gated_plan(n_heads, head_dim, eps_bits)),
{
    Ok(
        dispatch::just(
            Dispatch::kernel("rms_norm_per_head_gated_f32", "rms_norm_per_head_gated_f32")
                .arg(0)
                .arg(1)
                .arg(2)
                .words(dispatch::words2(n_heads, head_dim))
                .words(dispatch::bits(eps_bits))
                .threads(32 * n_heads as u64, 1, 32),
        ),
    )
}

/// The plan of `ssm_apply_gate_f32`.
pub open spec fn ssm_apply_gate_plan(n_v: usize) -> PlanModel {
    dispatch::only(
        DispatchModel::kernel("ssm_apply_gate_f32"@, "ssm_apply_gate_f32"@)
            .arg(0)
            .arg(1)
            .arg(2)
            .arg(3)
            .arg(4)
            .arg(5)
            .words(seq![n_v as u32])
            .threads(n_v as nat, 1, 32),
    )
}

/// Decay gate and delta scale of `n_v` heads.
pub fn ssm_apply_gate_f32(n_v: usize) -> (r: Result<Plan, MetalError>)
    ensures
        dispatch::planned(r) == if n_v == 0 {
            Err(ErrorModel::ShapeMismatch("ssm_apply_gate_f32: n_v must be > 0"@))
        } else {
            Ok(ssm_apply_gate_plan(n_v))
        },
{
    if n_v == 0 {
        return Err(shape_mismatch(Text::start("ssm_apply_gate_f32: n_v must be > 0")));
    }
    Ok(
        dispatch::just(
            Dispatch::kernel("ssm_apply_gate_f32", "ssm_apply_gate_f32")
                .arg(0)
                .arg(1)
                .arg(2)
                .arg(3)
                .arg(4)
                .arg(5)
                .words(dispatch::words1(n_v))
                .threads(n_v as u64, 1, 32),
        ),
    )
}

/// The plan of `split_qg_per_head_f32`.
pub open spec fn split_qg_per_head_plan(n_q: usize, head_dim: usize) -> PlanModel {
    dispatch::only(
        DispatchModel::kernel("split_qg_per_head_f32"@, "split_qg_per_head_f32"@)
            .arg(0)
            .arg(1)
            .arg(2)
            .words(seq![n_q as u32, head_dim as u32])
            .threads(head_dim as nat, n_q as nat, 32),
    )
}

/// Splits `[n_q, 2 * head_dim]` into queries and gates.
pub fn split_qg_per_head_f32(n_q: usize, head_dim: usize) -> (r: Result<Plan, MetalError>)
    ensures
        dispatch::planned(r) == if n_q == 0 || head_dim == 0 {
            Err(
                ErrorModel::ShapeMismatch(
                    "split_qg_per_head_f32: n_q="@ + text::decimal(n_q as nat) + ", head_dim="@ + text::decimal(
                        head_dim as nat,
                    ),
                ),
            )
        } else {
            Ok(split_qg_per_head_plan(n_q, head_dim))
        },
{
    if n_q == 0 || head_dim == 0 {
        return Err(
            shape_mismatch(
                Text::start("split_qg_per_head_f32: n_q=")
                    .num(n_q)
                    .lit(", head_dim=")
                    .num(head_dim),
            ),
        );
    }
    Ok(
        dispatch::just(
            Dispatch::kernel("split_qg_per_head_f32", "split_qg_per_head_f32")
                .arg(0)
                .arg(1)
                .arg(2)
                .words(dispatch::words2(n_q, head_dim))
                .threads(head_dim as u64, n_q as u64, 32),
        ),
    )
}

/// The plan of `weighted_add_inplace_f32`.
pub open spec fn weighted_add_inplace_plan(weight_bits: u32, n: usize) -> PlanModel {
    dispatch::only(
        DispatchModel::kernel("weighted_add_inplace_f32"@, "weighted_add_inplace_f32"@)
            .arg(0)
            .arg(1)
            .words(seq![weight_bits])
            .words(seq![n as u32])
            .threads(n as nat, 1, 64),
    )
}

/// `acc += weight * src` on `n` elements.
pub fn weighted_add_inplace_f32(weight_bits: u32, n: usize) -> (r: Result<Plan, MetalError>)
    ensures
        dispatch::planned(r) == if n == 0 {
            Err(ErrorModel::ShapeMismatch("weighted_add_inplace_f32: n must be > 0"@))
        } else {
            Ok(weighted_add_inplace_plan(weight_bits, n))
        },
{
    if n == 0 {
        return Err(shape_mismatch(Text::start("weighted_add_inplace_f32: n must be > 0")));
    }
    Ok(
        dispatch::just(
            Dispatch::kernel("weighted_add_inplace_f32", "weighted_add_inplace_f32")
                .arg(0)
                .arg(1)
                .words(dispatch::bits(weight_bits))
                .words(dispatch::words1(n))
                .threads(n as u64, 1, 64),
        ),
    )
}

/// The plan of `zero_f32`.
pub open spec fn zero_plan(n: usize) -> PlanModel {
    dispatch::only(
        DispatchModel::kernel("zero_f32"@, "zero_f32"@)
            .arg(0)
            .words(seq![n as u32])
            .threads(n as nat, 1, 64),
    )
}

/// Zeroes the first `n` elements of a buffer.
pub fn zero_f32(n: usize) -> (r: Result<Plan, MetalError>)
    ensures
        dispatch::planned(r) == if n == 0 {
            Err(ErrorModel::ShapeMismatch("zero_f32: n must be > 0"@))
        } else {
            Ok(zero_plan(n))
        },
{
    if n == 0 {
        return Err(shape_mismatch(Text::start("zero_f32: n must be > 0")));
    }
    Ok(
        dispatch::just(
            Dispatch::kernel("zero_f32", "zero_f32")
                .arg(0)
                .words(dispatch::words1(n))
                .threads(n as u64, 1, 64),
        ),
    )
}

/// The plan of `sigmoid_mul_inplace_f32`.
pub open spec fn sigmoid_mul_inplace_plan(n: usize) -> PlanModel {
    dispatch::only(
        DispatchModel::kernel("sigmoid_mul_inplace_f32"@, "sigmoid_mul_inplace_f32"@)
            .arg(0)
            .arg(1)
            .words(seq![n as u32])
            .threads(n as nat, 1, 64),
    )
}

/// `x *= sigmoid(gate)` on `n` elements.
pub fn sigmoid_mul_inplace_f32(n: usize) -> (r: Result<Plan, MetalError>)
    ensures
        dispatch::planned(r) == if n == 0 {
            Err(ErrorModel::ShapeMismatch("sigmoid_mul_inplace_f32: n must be > 0"@))
        } else {
            Ok(sigmoid_mul_inplace_plan(n))
        },
{
    if n == 0 {
        return Err(shape_mismatch(Text::start("sigmoid_mul_inplace_f32: n must be > 0")));
    }
    Ok(
        dispatch::just(
            Dispatch::kernel("sigmoid_mul_inplace_f32", "sigmoid_mul_inplace_f32")
                .arg(0)
                .arg(1)
                .words(dispatch::words1(n))
                .threads(n as u64, 1, 64),
        ),
    )
}

} // verus!
