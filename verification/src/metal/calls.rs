//! Which plan each call gives, and when it gives one.
use crate::metal::decode;
use crate::metal::dispatch;
use crate::metal::dispatch::{Plan, PlanModel};
use crate::metal::elementwise;
use crate::metal::error::MetalError;
use crate::metal::fused_adamw;
use crate::metal::fused_adamw::{AdamWStepParams, StepBuffers};
use crate::metal::matmul;
use crate::metal::matmul::Tiling;
use crate::metal::reduce;
use crate::metal::sgemv;
use crate::metal::ssm;
use vstd::prelude::*;

verus! {

/// The call gives the plan.
pub open spec fn gives(r: Result<Plan, MetalError>, plan: PlanModel) -> bool {
    r matches Ok(p) && p@ == plan
}

/// The call gives the plan where `valid` holds and is refused otherwise.
pub open spec fn gives_where(valid: bool, r: Result<Plan, MetalError>, plan: PlanModel) -> bool {
    if valid {
        gives(r, plan)
    } else {
        r is Err
    }
}

/// Each element-wise call gives the plan of its operation; a sum is refused
/// exactly where an operand is shorter than the elements.
pub proof fn law_elementwise_calls(
    lhs_len: u64,
    rhs_len: u64,
    n: usize,
    scalar_bits: u32,
    r: Result<Plan, MetalError>,
)
    ensures
        call_ensures(elementwise::add_f32, (lhs_len, rhs_len, n), r) ==> gives_where(
            lhs_len >= n * 4 && rhs_len >= n * 4,
            r,
            elementwise::sum_plan(n),
        ),
        call_ensures(elementwise::sub_f32, (n,), r) ==> gives(r, elementwise::sub_plan(n)),
        call_ensures(elementwise::mul_f32, (n,), r) ==> gives(r, elementwise::mul_plan(n)),
        call_ensures(elementwise::div_f32, (n,), r) ==> gives(r, elementwise::div_plan(n)),
        call_ensures(elementwise::neg_f32, (n,), r) ==> gives(r, elementwise::neg_plan(n)),
        call_ensures(elementwise::relu_f32, (n,), r) ==> gives(r, elementwise::relu_plan(n)),
        call_ensures(elementwise::sigmoid_f32, (n,), r) ==> gives(r, elementwise::sigmoid_plan(n)),
        call_ensures(elementwise::tanh_f32, (n,), r) ==> gives(r, elementwise::tanh_plan(n)),
        call_ensures(elementwise::silu_f32, (n,), r) ==> gives(r, elementwise::silu_plan(n)),
        call_ensures(elementwise::abs_f32, (n,), r) ==> gives(r, elementwise::abs_plan(n)),
        call_ensures(elementwise::sqrt_f32, (n,), r) ==> gives(r, elementwise::sqrt_plan(n)),
        call_ensures(elementwise::exp_f32, (n,), r) ==> gives(r, elementwise::exp_plan(n)),
        call_ensures(elementwise::log_f32, (n,), r) ==> gives(r, elementwise::log_plan(n)),
        call_ensures(elementwise::add_scalar_f32, (scalar_bits, n), r) ==>
            gives(r, elementwise::add_scalar_plan(scalar_bits, n)),
        call_ensures(elementwise::sub_scalar_f32, (scalar_bits, n), r) ==>
            gives(r, elementwise::sub_scalar_plan(scalar_bits, n)),
        call_ensures(elementwise::mul_scalar_f32, (scalar_bits, n), r) ==>
            gives(r, elementwise::mul_scalar_plan(scalar_bits, n)),
        call_ensures(elementwise::div_scalar_f32, (scalar_bits, n), r) ==>
            gives(r, elementwise::div_scalar_plan(scalar_bits, n)),
{
}

/// Each reduction gives the plan of its operation; one along an axis is refused
/// exactly where a matrix has no such axis.
pub proof fn law_reduction_calls(
    n: usize,
    kind: u32,
    b_dim: usize,
    n_dim: usize,
    d0: usize,
    d1: usize,
    axis: usize,
    m: usize,
    r: Result<Plan, MetalError>,
)
    ensures
        call_ensures(reduce::sum_f32, (n,), r) ==> gives(r, reduce::total_plan(n)),
        call_ensures(reduce::mean_f32, (n,), r) ==> gives(r, reduce::average_plan(n)),
        call_ensures(reduce::mse_reduce_f32, (n, kind), r) ==> gives(r, reduce::mse_plan(n, kind)),
        call_ensures(reduce::add_bias_f32, (b_dim, n_dim), r) ==>
            gives(r, reduce::bias_plan(b_dim, n_dim)),
        call_ensures(reduce::sum_dim_2d_f32, (d0, d1, axis), r) ==> (r is Ok <==> axis <= 1)
            && dispatch::planned(r) == reduce::sum_dim(d0, d1, axis),
        call_ensures(reduce::mean_dim_2d_f32, (d0, d1, axis), r) ==> (r is Ok <==> axis <= 1)
            && dispatch::planned(r) == reduce::mean_dim(d0, d1, axis),
        call_ensures(reduce::transpose2d_f32, (m, n), r) ==> gives(r, reduce::transpose_plan(m, n)),
{
}

/// Each call of a decoding step gives the plan of its operation; a rotation is
/// refused exactly where its width is odd, zero or larger than a head.
pub proof fn law_decoding_calls(
    d: usize,
    eps_bits: u32,
    b: usize,
    n_heads: usize,
    head_dim: usize,
    position: usize,
    f: usize,
    n_kv: usize,
    max_seq: usize,
    position_base: usize,
    rope_dim: usize,
    kv_len: usize,
    pos_base: usize,
    r: Result<Plan, MetalError>,
)
    ensures
        call_ensures(decode::rms_norm_f32, (d, eps_bits), r) ==>
            gives(r, decode::rms_norm_plan(d, eps_bits)),
        call_ensures(decode::rms_norm_batched_f32, (d, b, eps_bits), r) ==>
            gives(r, decode::rms_norm_batched_plan(d, b, eps_bits)),
        call_ensures(decode::rms_norm_per_head_f32, (n_heads, head_dim, eps_bits), r) ==>
            gives(r, decode::rms_norm_per_head_plan(n_heads, head_dim, eps_bits)),
        call_ensures(decode::rms_norm_per_head_batched_f32, (n_heads, head_dim, b, eps_bits), r) ==>
            gives(r, decode::rms_norm_per_head_batched_plan(n_heads, head_dim, b, eps_bits)),
        call_ensures(decode::rms_norm_per_head_then_rope_f32, (n_heads, head_dim, position, eps_bits), r) ==>
            gives(r, decode::rms_norm_per_head_then_rope_plan(n_heads, head_dim, position, eps_bits)),
        call_ensures(decode::swiglu_f32, (f,), r) ==> gives(r, decode::swiglu_plan(f)),
        call_ensures(decode::swiglu_batched_f32, (f, b), r) ==>
            gives(r, decode::swiglu_batched_plan(f, b)),
        call_ensures(decode::kv_append_f32, (n_kv, head_dim, position, max_seq), r) ==>
            gives(r, decode::kv_append_plan(n_kv, head_dim, position, max_seq)),
        call_ensures(decode::kv_append_batched_f32, (n_kv, head_dim, position_base, b, max_seq), r) ==>
            gives(r, decode::kv_append_batched_plan(n_kv, head_dim, position_base, b, max_seq)),
        call_ensures(decode::kv_append_kv_f32, (n_kv, head_dim, position, max_seq), r) ==>
            gives(r, decode::kv_append_kv_plan(n_kv, head_dim, position, max_seq)),
        call_ensures(decode::rope_half_split_f32, (n_heads, head_dim, rope_dim, position), r) ==>
            gives_where(
            0 < rope_dim <= head_dim && rope_dim % 2 == 0,
            r,
            decode::rope_half_split_plan(n_heads, head_dim, rope_dim, position),
        ),
        call_ensures(decode::rope_half_split_batched_f32, (n_heads, head_dim, position_base, b), r) ==>
            gives(r, decode::rope_half_split_batched_plan(n_heads, head_dim, position_base, b)),
        call_ensures(decode::gqa_decode_f32, (n_heads, n_kv, head_dim, kv_len, max_seq), r) ==>
            gives(r, decode::gqa_decode_plan(n_heads, n_kv, head_dim, kv_len, max_seq)),
        call_ensures(decode::gqa_decode_batched_f32, (n_heads, n_kv, head_dim, pos_base, b, max_seq), r) ==>
            gives(r, decode::gqa_decode_batched_plan(n_heads, n_kv, head_dim, pos_base, b, max_seq)),
        call_ensures(decode::add_inplace_f32, (d,), r) ==> gives(r, decode::add_inplace_plan(d)),
        call_ensures(decode::add_inplace_batched_f32, (d, b), r) ==>
            gives(r, decode::add_inplace_batched_plan(d, b)),
{
}

/// Each call of a recurrent layer gives the plan of its operation, and is refused
/// exactly where a size is zero or the heads do not divide.
pub proof fn law_recurrent_calls(
    kernel_size: usize,
    conv_dim: usize,
    n_heads: usize,
    head_dim: usize,
    eps_bits: u32,
    n_v_heads: usize,
    n_k_heads: usize,
    n_v: usize,
    n_q: usize,
    weight_bits: u32,
    n: usize,
    r: Result<Plan, MetalError>,
)
    ensures
        call_ensures(ssm::ssm_conv1d_step_f32, (kernel_size, conv_dim), r) ==> gives_where(
            kernel_size > 0 && conv_dim > 0,
            r,
            ssm::ssm_conv1d_step_plan(kernel_size, conv_dim),
        ),
        call_ensures(ssm::l2_norm_per_head_f32, (n_heads, head_dim, eps_bits), r) ==>
            gives(r, ssm::l2_norm_per_head_plan(n_heads, head_dim, eps_bits)),
        call_ensures(ssm::delta_net_step_f32, (n_v_heads, head_dim, n_k_heads), r) ==> gives_where(
            n_v_heads > 0 && head_dim > 0 && n_k_heads > 0 && n_v_heads % n_k_heads == 0,
            r,
            ssm::delta_net_step_plan(n_v_heads, head_dim, n_k_heads),
        ),
        call_ensures(ssm::rms_norm_per_head_gated_f32, (n_heads, head_dim, eps_bits), r) ==>
            gives(r, ssm::rms_norm_per_head_gated_plan(n_heads, head_dim, eps_bits)),
        call_ensures(ssm::ssm_apply_gate_f32, (n_v,), r) ==> gives_where(
            n_v > 0,
            r,
            ssm::ssm_apply_gate_plan(n_v),
        ),
        call_ensures(ssm::split_qg_per_head_f32, (n_q, head_dim), r) ==> gives_where(
            n_q > 0 && head_dim > 0,
            r,
            ssm::split_qg_per_head_plan(n_q, head_dim),
        ),
        call_ensures(ssm::weighted_add_inplace_f32, (weight_bits, n), r) ==> gives_where(
            n > 0,
            r,
            ssm::weighted_add_inplace_plan(weight_bits, n),
        ),
        call_ensures(ssm::zero_f32, (n,), r) ==> gives_where(
            n > 0,
            r,
            ssm::zero_plan(n),
        ),
        call_ensures(ssm::sigmoid_mul_inplace_f32, (n,), r) ==> gives_where(
            n > 0,
            r,
            ssm::sigmoid_mul_inplace_plan(n),
        ),
{
}

/// Each matrix-vector product gives the plan of its format and kernel, and is
/// refused exactly where the device lacks matrix instructions, a size is zero
/// or the rows are not made of whole blocks.
pub proof fn law_product_calls(
    metal3: bool,
    k: usize,
    n: usize,
    b: usize,
    n_q: usize,
    n_k: usize,
    n_v: usize,
    n_a: usize,
    n_b: usize,
    r: Result<Plan, MetalError>,
)
    ensures
        call_ensures(sgemv::sgemv_q4_k_f32_into, (metal3, k, n), r) ==> gives_where(
            metal3 && k > 0 && n > 0 && k % 256 == 0,
            r,
            sgemv::sgemv_q4_k_into_plan(k, n),
        ),
        call_ensures(sgemv::sgemv_q4_k_f32_simdcoop_nr2_into, (metal3, k, n), r) ==> gives_where(
            metal3 && k > 0 && n > 0 && k % 256 == 0,
            r,
            sgemv::sgemv_q4_k_simdcoop_nr2_into_plan(k, n),
        ),
        call_ensures(sgemv::sgemv_q4_k_f32_lcpp_nr2_into, (metal3, k, n), r) ==> gives_where(
            metal3 && k > 0 && n > 0 && k % 256 == 0,
            r,
            sgemv::sgemv_q4_k_lcpp_nr2_into_plan(k, n),
        ),
        call_ensures(sgemv::sgemv_q4_k_f32_simdcoop_into, (metal3, k, n), r) ==> gives_where(
            metal3 && k > 0 && n > 0 && k % 256 == 0,
            r,
            sgemv::sgemv_q4_k_simdcoop_into_plan(k, n),
        ),
        call_ensures(sgemv::sgemv_q4_k_f32_simdcoop_residual_into, (metal3, k, n), r) ==>
            gives_where(
            metal3 && k > 0 && n > 0 && k % 256 == 0,
            r,
            sgemv::sgemv_q4_k_simdcoop_residual_into_plan(k, n),
        ),
        call_ensures(sgemv::sgemv_q4_k_f32_quadcoop_into, (metal3, k, n), r) ==> gives_where(
            metal3 && k > 0 && n > 0 && k % 256 == 0,
            r,
            sgemv::sgemv_q4_k_quadcoop_into_plan(k, n),
        ),
        call_ensures(sgemv::sgemv_q4_k_f32_lcpp_nsg2_into, (metal3, k, n), r) ==> gives_where(
            metal3 && k > 0 && n > 0 && k % 256 == 0,
            r,
            sgemv::sgemv_q4_k_lcpp_nsg2_into_plan(k, n),
        ),
        call_ensures(sgemv::sgemv_q4_k_f32_batch_into, (metal3, k, n, b), r) ==> gives_where(
            metal3 && k > 0 && n > 0 && b > 0 && k % 256 == 0,
            r,
            sgemv::sgemv_q4_k_batch_into_plan(k, n, b),
        ),
        call_ensures(sgemv::sgemv_q4_k_f32_lcpp_nr2_batch_into, (metal3, k, n, b), r) ==>
            gives_where(
            metal3 && k > 0 && n > 0 && b > 0 && k % 256 == 0,
            r,
            sgemv::sgemv_q4_k_lcpp_nr2_batch_into_plan(k, n, b),
        ),
        call_ensures(sgemv::sgemv_q4_k_f32_transposed_into, (metal3, k, n), r) ==> gives_where(
            metal3 && k > 0 && n > 0 && k % 256 == 0,
            r,
            sgemv::sgemv_q4_k_transposed_into_plan(k, n),
        ),
        call_ensures(sgemv::sgemv_q4_k_f32, (metal3, k, n), r) ==> gives_where(
            metal3 && k > 0 && n > 0 && k % 256 == 0,
            r,
            sgemv::sgemv_q4_k_plan(k, n),
        ),
        call_ensures(sgemv::sgemv_q6_k_f32_into, (metal3, k, n), r) ==> gives_where(
            metal3 && k > 0 && n > 0 && k % 256 == 0,
            r,
            sgemv::sgemv_q6_k_into_plan(k, n),
        ),
        call_ensures(sgemv::sgemv_q6_k_f32_simdcoop_nr2_into, (metal3, k, n), r) ==> gives_where(
            metal3 && k > 0 && n > 0 && k % 256 == 0,
            r,
            sgemv::sgemv_q6_k_simdcoop_nr2_into_plan(k, n),
        ),
        call_ensures(sgemv::sgemv_q6_k_f32_lcpp_nr2_into, (metal3, k, n), r) ==> gives_where(
            metal3 && k > 0 && n > 0 && k % 256 == 0,
            r,
            sgemv::sgemv_q6_k_lcpp_nr2_into_plan(k, n),
        ),
        call_ensures(sgemv::sgemv_q6_k_f32_simdcoop_into, (metal3, k, n), r) ==> gives_where(
            metal3 && k > 0 && n > 0 && k % 256 == 0,
            r,
            sgemv::sgemv_q6_k_simdcoop_into_plan(k, n),
        ),
        call_ensures(sgemv::sgemv_q6_k_f32_simdcoop_residual_into, (metal3, k, n), r) ==>
            gives_where(
            metal3 && k > 0 && n > 0 && k % 256 == 0,
            r,
            sgemv::sgemv_q6_k_simdcoop_residual_into_plan(k, n),
        ),
        call_ensures(sgemv::sgemv_q6_k_f32_lcpp_nsg2_into, (metal3, k, n), r) ==> gives_where(
            metal3 && k > 0 && n > 0 && k % 256 == 0,
            r,
            sgemv::sgemv_q6_k_lcpp_nsg2_into_plan(k, n),
        ),
        call_ensures(sgemv::sgemv_q6_k_f32_batch_into, (metal3, k, n, b), r) ==> gives_where(
            metal3 && k > 0 && n > 0 && b > 0 && k % 256 == 0,
            r,
            sgemv::sgemv_q6_k_batch_into_plan(k, n, b),
        ),
        call_ensures(sgemv::sgemv_q6_k_f32_lcpp_nr2_batch_into, (metal3, k, n, b), r) ==>
            gives_where(
            metal3 && k > 0 && n > 0 && b > 0 && k % 256 == 0,
            r,
            sgemv::sgemv_q6_k_lcpp_nr2_batch_into_plan(k, n, b),
        ),
        call_ensures(sgemv::sgemv_q6_k_f32_transposed_into, (metal3, k, n), r) ==> gives_where(
            metal3 && k > 0 && n > 0 && k % 256 == 0,
            r,
            sgemv::sgemv_q6_k_transposed_into_plan(k, n),
        ),
        call_ensures(sgemv::sgemv_q6_k_f32, (metal3, k, n), r) ==> gives_where(
            metal3 && k > 0 && n > 0 && k % 256 == 0,
            r,
            sgemv::sgemv_q6_k_plan(k, n),
        ),
        call_ensures(sgemv::sgemv_q5_k_f32_lcpp_nsg2_into, (metal3, k, n), r) ==> gives_where(
            metal3 && k > 0 && n > 0 && k % 256 == 0,
            r,
            sgemv::sgemv_q5_k_lcpp_nsg2_into_plan(k, n),
        ),
        call_ensures(sgemv::sgemv_q8_0_f32_lcpp_nsg2_into, (metal3, k, n), r) ==> gives_where(
            metal3 && k > 0 && n > 0 && k % 32 == 0,
            r,
            sgemv::sgemv_q8_0_lcpp_nsg2_into_plan(k, n),
        ),
        call_ensures(sgemv::sgemv_f32_simd, (metal3, k, n), r) ==> gives_where(
            metal3 && k > 0 && n > 0,
            r,
            sgemv::sgemv_simd_plan(k, n),
        ),
        call_ensures(sgemv::sgemv_q4_k_f32_triple_into, (metal3, k, n_q, n_k, n_v), r) ==>
            gives_where(
            metal3 && k % 256 == 0,
            r,
            sgemv::sgemv_q4_k_triple_into_plan(k, n_q, n_k, n_v),
        ),
        call_ensures(sgemv::sgemv_q4_k_f32_pair_into, (metal3, k, n_a, n_b), r) ==> gives_where(
            metal3 && k % 256 == 0,
            r,
            sgemv::sgemv_q4_k_pair_into_plan(k, n_a, n_b),
        ),
        call_ensures(sgemv::sgemv_q4_k_f32_triple_quadcoop_into, (metal3, k, n_q, n_k, n_v), r) ==>
            gives_where(
            metal3 && k % 256 == 0,
            r,
            sgemv::sgemv_q4_k_triple_quadcoop_into_plan(k, n_q, n_k, n_v),
        ),
        call_ensures(sgemv::sgemv_q4_k_f32_pair_quadcoop_into, (metal3, k, n_a, n_b), r) ==>
            gives_where(
            metal3 && k % 256 == 0,
            r,
            sgemv::sgemv_q4_k_pair_quadcoop_into_plan(k, n_a, n_b),
        ),
        call_ensures(sgemv::sgemv_q4_k_f32_triple_simdcoop_into, (metal3, k, n_q, n_k, n_v), r) ==>
            gives_where(
            metal3 && k % 256 == 0,
            r,
            sgemv::sgemv_q4_k_triple_simdcoop_into_plan(k, n_q, n_k, n_v),
        ),
        call_ensures(sgemv::sgemv_q4_k_f32_pair_simdcoop_into, (metal3, k, n_a, n_b), r) ==>
            gives_where(
            metal3 && k % 256 == 0,
            r,
            sgemv::sgemv_q4_k_pair_simdcoop_into_plan(k, n_a, n_b),
        ),
{
}

/// Each matrix product gives the plan of its kernel, and is refused exactly where
/// the device lacks matrix instructions or the tiles do not divide the sizes.
pub proof fn law_matrix_calls(
    metal3: bool,
    m: usize,
    k: usize,
    n: usize,
    r: Result<Plan, MetalError>,
)
    ensures
        call_ensures(matmul::matmul_simdgroup_f32_coarsened_wide, (metal3, m, k, n), r) ==>
            gives_where(
            metal3 && m % 16 == 0 && k % 8 == 0 && n % 256 == 0,
            r,
            matmul::inline("matmul_simdgroup_f32_coarsened_wide"@, false, m, k, n),
        ),
        call_ensures(matmul::matmul_simdgroup_f32_coarsened_wide_bias, (metal3, m, k, n), r) ==>
            gives_where(
            metal3 && m % 16 == 0 && k % 8 == 0 && n % 256 == 0,
            r,
            matmul::inline("matmul_simdgroup_f32_coarsened_wide_bias"@, true, m, k, n),
        ),
        call_ensures(matmul::matmul_simdgroup_f32_b_t, (metal3, m, k, n), r) ==> gives_where(
            metal3 && m % 16 == 0 && k % 8 == 0 && n % 256 == 0,
            r,
            matmul::inline("matmul_simdgroup_f32_b_t"@, false, m, k, n),
        ),
        call_ensures(matmul::matmul_simdgroup_f32_a_t, (metal3, m, k, n), r) ==> gives_where(
            metal3 && m % 16 == 0 && k % 8 == 0 && n % 256 == 0,
            r,
            matmul::inline("matmul_simdgroup_f32_a_t"@, false, m, k, n),
        ),
        call_ensures(matmul::matmul_simdgroup_f32_coarsened, (metal3, m, k, n), r) ==> gives_where(
            metal3 && m % 8 == 0 && k % 8 == 0 && n % 256 == 0,
            r,
            matmul::buffered("matmul_simdgroup_f32_coarsened"@, Tiling::Coarse, 4, m, k, n),
        ),
        call_ensures(matmul::matmul_bf16_in_f32_out, (metal3, m, k, n), r) ==> gives_where(
            metal3 && m % 16 == 0 && k % 8 == 0 && n % 256 == 0,
            r,
            matmul::buffered("matmul_bf16_in_f32_out"@, Tiling::Wide, 4, m, k, n),
        ),
        call_ensures(matmul::matmul_simdgroup_bf16_pub, (metal3, m, k, n), r) ==> gives_where(
            metal3 && m % 8 == 0 && k % 8 == 0 && n % 64 == 0,
            r,
            matmul::buffered("matmul_simdgroup_bf16"@, Tiling::Narrow, 2, m, k, n),
        ),
        call_ensures(matmul::matmul_simdgroup_f32_multisg, (metal3, m, k, n), r) ==> gives_where(
            metal3 && m % 8 == 0 && k % 8 == 0 && n % 64 == 0,
            r,
            matmul::buffered("matmul_simdgroup_f32_multisg"@, Tiling::Narrow, 4, m, k, n),
        ),
        call_ensures(matmul::matmul_simdgroup_f32, (metal3, m, k, n), r) ==> gives_where(
            metal3 && m % 8 == 0 && k % 8 == 0 && n % 8 == 0,
            r,
            matmul::buffered("matmul_simdgroup_f32"@, Tiling::Single, 4, m, k, n),
        ),
        call_ensures(matmul::cast_f32_to_bf16_pub, (n,), r) ==>
            gives(r, matmul::cast_down(n as nat)),
        call_ensures(matmul::cast_bf16_to_f32_pub, (n,), r) ==> gives(r, matmul::cast_up(n as nat)),
        call_ensures(matmul::matmul_simdgroup_f32_via_bf16, (metal3, m, k, n), r) ==> gives_where(
            metal3 && m % 8 == 0 && k % 8 == 0 && n % 64 == 0,
            r,
            matmul::via_bf16(m, k, n),
        ),
{
}

/// Each optimiser step gives its plan where every buffer holds the elements.
pub proof fn law_update_calls(
    lens: StepBuffers,
    n: usize,
    params: AdamWStepParams,
    r: Result<Plan, MetalError>,
)
    ensures
        call_ensures(fused_adamw::fused_adamw_step, (lens, n, params), r) ==> gives_where(
            lens.hold(n * 4),
            r,
            fused_adamw::step_plan(n, params),
        ),
        call_ensures(fused_adamw::fused_adamw_step_inplace, (lens, n, params), r) ==> gives_where(
            lens.hold(n * 4),
            r,
            fused_adamw::inplace_plan(n, params),
        ),
{
}

} // verus!
