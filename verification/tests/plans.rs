//! Exact launches and refusals of the kernels of a decoding step.
use rustorch::metal::decode::{
    add_inplace_batched_f32, add_inplace_f32, kv_append_kv_f32, rms_norm_per_head_batched_f32,
    rms_norm_per_head_f32, rms_norm_per_head_then_rope_f32, rope_half_split_f32,
    swiglu_batched_f32, swiglu_f32,
};
use rustorch::metal::dispatch::{Binding, Plan};
use rustorch::metal::error::MetalError;
use rustorch::metal::matmul::{
    cast_bf16_to_f32_pub, cast_f32_to_bf16_pub, matmul_bf16_in_f32_out,
    matmul_simdgroup_f32_coarsened, matmul_simdgroup_f32_multisg,
};
use rustorch::metal::reduce::{add_bias_f32, mean_dim_2d_f32};
use rustorch::metal::sgemv::{
    sgemv_f32_simd, sgemv_q4_k_f32, sgemv_q4_k_f32_lcpp_nr2_batch_into,
    sgemv_q4_k_f32_lcpp_nr2_into, sgemv_q4_k_f32_lcpp_nsg2_into,
    sgemv_q4_k_f32_pair_quadcoop_into, sgemv_q4_k_f32_pair_simdcoop_into,
    sgemv_q4_k_f32_simdcoop_into, sgemv_q4_k_f32_simdcoop_nr2_into,
    sgemv_q4_k_f32_simdcoop_residual_into, sgemv_q4_k_f32_transposed_into,
    sgemv_q4_k_f32_triple_quadcoop_into, sgemv_q5_k_f32_lcpp_nsg2_into, sgemv_q6_k_f32,
    sgemv_q6_k_f32_batch_into, sgemv_q6_k_f32_into, sgemv_q6_k_f32_lcpp_nr2_batch_into,
    sgemv_q6_k_f32_lcpp_nr2_into, sgemv_q6_k_f32_lcpp_nsg2_into, sgemv_q6_k_f32_simdcoop_into,
    sgemv_q6_k_f32_simdcoop_nr2_into, sgemv_q6_k_f32_simdcoop_residual_into,
    sgemv_q6_k_f32_transposed_into, sgemv_q8_0_f32_lcpp_nsg2_into,
};
use rustorch::metal::ssm::{
    delta_net_step_f32, l2_norm_per_head_f32, rms_norm_per_head_gated_f32,
    sigmoid_mul_inplace_f32, split_qg_per_head_f32, ssm_apply_gate_f32, ssm_conv1d_step_f32,
    weighted_add_inplace_f32, zero_f32,
};

/// Entry, grid, threadgroup width and inline words of the only launch.
type Launch<'a> = (&'a str, (u64, u64), u64, Vec<Vec<u32>>);

fn launch(p: &Plan) -> Launch<'_> {
    assert_eq!(p.dispatches.len(), 1);
    let d = &p.dispatches[0];
    let words = d
        .bindings
        .iter()
        .filter_map(|b| match b {
            Binding::Words(w) => Some(w.clone()),
            _ => None,
        })
        .collect();
    (d.entry, (d.grid.0, d.grid.1), d.group.0, words)
}

fn text(r: Result<Plan, MetalError>) -> String {
    r.unwrap_err().message()
}

fn args(p: &Plan) -> Vec<usize> {
    p.dispatches[0]
        .bindings
        .iter()
        .filter_map(|b| match b {
            Binding::Arg(i) => Some(*i),
            _ => None,
        })
        .collect()
}

#[test]
fn one_vector_kernels_launch_as_many_threads_as_they_need() {
    let (k, n) = (512usize, 7usize);
    let w = vec![vec![512u32, 7]];
    let table: Vec<(Result<Plan, MetalError>, &str, u64, u64)> = vec![
        (sgemv_q4_k_f32_simdcoop_nr2_into(true, k, n), "sgemv_q4_k_f32_simdcoop_nr2", 128, 32),
        (sgemv_q4_k_f32_lcpp_nr2_into(true, k, n), "sgemv_q4_k_f32_lcpp_nr2", 128, 32),
        (sgemv_q4_k_f32_simdcoop_into(true, k, n), "sgemv_q4_k_f32_simdcoop", 224, 32),
        (
            sgemv_q4_k_f32_simdcoop_residual_into(true, k, n),
            "sgemv_q4_k_f32_simdcoop_residual",
            224,
            32,
        ),
        (sgemv_q4_k_f32_lcpp_nsg2_into(true, k, n), "sgemv_q4_k_f32_lcpp_nr2", 128, 32),
        (sgemv_q6_k_f32_into(true, k, n), "sgemv_q6_k_f32", 7, 64),
        (sgemv_q6_k_f32_simdcoop_nr2_into(true, k, n), "sgemv_q6_k_f32_simdcoop_nr2", 128, 32),
        (sgemv_q6_k_f32_lcpp_nr2_into(true, k, n), "sgemv_q6_k_f32_lcpp_nr2", 128, 32),
        (sgemv_q6_k_f32_simdcoop_into(true, k, n), "sgemv_q6_k_f32_simdcoop", 224, 32),
        (
            sgemv_q6_k_f32_simdcoop_residual_into(true, k, n),
            "sgemv_q6_k_f32_simdcoop_residual",
            224,
            32,
        ),
        (sgemv_q6_k_f32_lcpp_nsg2_into(true, k, n), "sgemv_q6_k_f32_lcpp_nr2", 128, 32),
    ];
    for (plan, entry, threads, width) in table {
        let plan = plan.unwrap();
        assert_eq!(launch(&plan), (entry, (threads, 1), width, w.clone()));
        assert!(!plan.dispatches[0].by_groups);
        assert_eq!(args(&plan), vec![0, 1, 2]);
        assert!(plan.allocs.is_empty() && plan.result.is_none());
    }
}

#[test]
fn two_simdgroup_kernels_count_threadgroups() {
    let table: Vec<(Result<Plan, MetalError>, &str, u64, Vec<u32>)> = vec![
        (sgemv_q4_k_f32_lcpp_nsg2_into(true, 256, 8), "sgemv_q4_k_f32_lcpp_nsg2", 2, vec![256, 8]),
        (sgemv_q6_k_f32_lcpp_nsg2_into(true, 256, 8), "sgemv_q6_k_f32_lcpp_nsg2", 2, vec![256, 8]),
        (sgemv_q5_k_f32_lcpp_nsg2_into(true, 256, 7), "sgemv_q5_k_f32_lcpp_nsg2", 4, vec![256, 7]),
        (sgemv_q8_0_f32_lcpp_nsg2_into(true, 32, 7), "sgemv_q8_0_f32_lcpp_nsg2", 2, vec![32, 7]),
    ];
    for (plan, entry, groups, words) in table {
        let plan = plan.unwrap();
        assert_eq!(launch(&plan), (entry, (groups, 1), 64, vec![words]));
        assert!(plan.dispatches[0].by_groups);
    }
}

#[test]
fn batched_kernels_multiply_by_the_batch() {
    let w = vec![vec![256u32, 5, 3]];
    let p = sgemv_q4_k_f32_lcpp_nr2_batch_into(true, 256, 5, 3).unwrap();
    assert_eq!(launch(&p), ("sgemv_q4_k_f32_lcpp_nr2_batch", (288, 1), 32, w.clone()));
    let p = sgemv_q6_k_f32_lcpp_nr2_batch_into(true, 256, 5, 3).unwrap();
    assert_eq!(launch(&p), ("sgemv_q6_k_f32_lcpp_nr2_batch", (288, 1), 32, w.clone()));
    let p = sgemv_q6_k_f32_batch_into(true, 256, 5, 3).unwrap();
    assert_eq!(launch(&p), ("sgemv_q6_k_f32_batch", (5, 3), 64, w));
    assert_eq!(
        text(sgemv_q6_k_f32_batch_into(true, 256, 5, 0)),
        "Metal shape mismatch: sgemv_q6_k_f32_batch: K%256==0 required (K=256, N=5, B=0)"
    );
    assert_eq!(
        text(sgemv_q4_k_f32_lcpp_nr2_batch_into(false, 256, 5, 3)),
        "unsupported operation: sgemv_q4_k_f32_lcpp_nr2_batch needs Metal3"
    );
}

#[test]
fn kernels_with_their_own_size_buffer() {
    for (plan, entry) in [
        (sgemv_q4_k_f32_transposed_into(true, 256, 9).unwrap(), "sgemv_q4_k_f32_transposed"),
        (sgemv_q6_k_f32_transposed_into(true, 256, 9).unwrap(), "sgemv_q6_k_f32_transposed"),
    ] {
        assert_eq!(launch(&plan), (entry, (9, 1), 64, vec![]));
        assert_eq!((plan.allocs.len(), plan.allocs[0].bytes), (1, 8));
        assert_eq!(plan.allocs[0].words, vec![256, 9]);
        assert_eq!(plan.result, None);
    }
    for plan in [sgemv_q4_k_f32(true, 256, 9).unwrap(), sgemv_q6_k_f32(true, 256, 9).unwrap()] {
        assert_eq!((plan.allocs[0].bytes, plan.allocs[1].bytes), (36, 8));
        assert_eq!(plan.allocs[1].words, vec![256, 9]);
        assert_eq!((plan.result, plan.dispatches[0].grid), (Some(0), (9, 1, 1)));
    }
}

#[test]
fn fused_launches_cover_all_their_rows() {
    let p = sgemv_q4_k_f32_triple_quadcoop_into(true, 256, 8, 4, 1).unwrap();
    let w = vec![vec![256u32, 8, 4, 1]];
    assert_eq!(launch(&p), ("sgemv_q4_k_f32_triple_quadcoop", (128, 1), 32, w));
    assert_eq!(args(&p), vec![0, 1, 2, 3, 4, 5, 6]);
    let w = vec![vec![256u32, 8, 6, 0]];
    let p = sgemv_q4_k_f32_pair_quadcoop_into(true, 256, 8, 6).unwrap();
    assert_eq!(launch(&p), ("sgemv_q4_k_f32_triple_quadcoop", (128, 1), 32, w.clone()));
    assert_eq!(args(&p), vec![0, 1, 2, 2, 3, 4, 4]);
    let p = sgemv_q4_k_f32_pair_simdcoop_into(true, 256, 8, 6).unwrap();
    assert_eq!(launch(&p), ("sgemv_q4_k_f32_triple_simdcoop", (448, 1), 32, w));
    assert_eq!(
        text(sgemv_q4_k_f32_pair_quadcoop_into(true, 255, 8, 6)),
        "Metal shape mismatch: sgemv_q4_k_f32_triple_quadcoop: K%256==0 required (K=255)"
    );
}

#[test]
fn products_refuse_in_their_own_words() {
    let cases: Vec<(Result<Plan, MetalError>, &str)> = vec![
        (
            sgemv_q6_k_f32_into(true, 0, 3),
            "Metal shape mismatch: sgemv_q6_k_f32 needs K>=1, N>=1, K%256==0: got K=0, N=3",
        ),
        (
            sgemv_q6_k_f32_transposed_into(false, 256, 3),
            "unsupported operation: sgemv_q6_k_f32 needs MTLGPUFamily::Metal3 (M3+, A17 Pro+)",
        ),
        (
            sgemv_q4_k_f32_transposed_into(true, 128, 3),
            "Metal shape mismatch: sgemv_q4_k_f32_t: K%256==0 required (K=128, N=3)",
        ),
        (
            sgemv_q8_0_f32_lcpp_nsg2_into(true, 33, 3),
            "Metal shape mismatch: sgemv_q8_0_f32_lcpp_nsg2: K%32==0 required (K=33, N=3)",
        ),
        (
            sgemv_q5_k_f32_lcpp_nsg2_into(false, 256, 3),
            "unsupported operation: sgemv_q5_k_f32_lcpp_nsg2 needs Metal3",
        ),
        (
            sgemv_f32_simd(true, 0, 3),
            "Metal shape mismatch: sgemv_f32_simd needs K >= 1, N >= 1: got K=0, N=3",
        ),
    ];
    for (r, expected) in cases {
        assert_eq!(text(r), expected);
    }
}

#[test]
fn per_head_kernels_use_one_simdgroup_per_head() {
    let p = rms_norm_per_head_f32(3, 64, 9).unwrap();
    assert_eq!(launch(&p), ("rms_norm_per_head_f32", (96, 1), 32, vec![vec![3, 64], vec![9]]));
    let p = rms_norm_per_head_batched_f32(3, 64, 2, 9).unwrap();
    let w = vec![vec![3, 64, 2], vec![9]];
    assert_eq!(launch(&p), ("rms_norm_per_head_batched_f32", (192, 1), 32, w));
    let p = rms_norm_per_head_then_rope_f32(3, 64, 11, 9).unwrap();
    let w = vec![vec![3, 64, 11], vec![9]];
    assert_eq!(launch(&p), ("rms_norm_per_head_then_rope_f32", (96, 1), 32, w));
    assert_eq!(args(&p), vec![0, 1, 2, 3]);
    let p = l2_norm_per_head_f32(3, 64, 9).unwrap();
    assert_eq!(launch(&p), ("l2_norm_per_head_f32", (96, 1), 32, vec![vec![3, 64], vec![9]]));
    let p = rms_norm_per_head_gated_f32(3, 64, 9).unwrap();
    let w = vec![vec![3, 64], vec![9]];
    assert_eq!(launch(&p), ("rms_norm_per_head_gated_f32", (96, 1), 32, w));
}

#[test]
fn element_kernels_of_a_step() {
    let p = swiglu_f32(300).unwrap();
    assert_eq!(launch(&p), ("swiglu_f32", (300, 1), 256, vec![vec![300]]));
    let p = swiglu_batched_f32(300, 2).unwrap();
    assert_eq!(launch(&p), ("swiglu_batched_f32", (600, 1), 256, vec![vec![300, 2]]));
    let p = kv_append_kv_f32(2, 6, 4, 10).unwrap();
    let w = vec![vec![2, 6, 4], vec![10]];
    assert_eq!(launch(&p), ("kv_append_kv_f32", (24, 1), 64, w));
    let p = add_inplace_f32(11).unwrap();
    assert_eq!(launch(&p), ("add_inplace_f32", (5, 1), 256, vec![vec![11]]));
    let p = add_inplace_batched_f32(11, 2).unwrap();
    assert_eq!(launch(&p), ("add_inplace_batched_f32", (7, 1), 256, vec![vec![11, 2]]));
    let p = weighted_add_inplace_f32(5, 70).unwrap();
    let w = vec![vec![5], vec![70]];
    assert_eq!(launch(&p), ("weighted_add_inplace_f32", (70, 1), 64, w));
    let p = sigmoid_mul_inplace_f32(70).unwrap();
    assert_eq!(launch(&p), ("sigmoid_mul_inplace_f32", (70, 1), 64, vec![vec![70]]));
    let p = zero_f32(70).unwrap();
    assert_eq!(launch(&p), ("zero_f32", (70, 1), 64, vec![vec![70]]));
    assert_eq!(
        text(weighted_add_inplace_f32(5, 0)),
        "Metal shape mismatch: weighted_add_inplace_f32: n must be > 0"
    );
    assert_eq!(
        text(sigmoid_mul_inplace_f32(0)),
        "Metal shape mismatch: sigmoid_mul_inplace_f32: n must be > 0"
    );
}

#[test]
fn state_space_kernels() {
    let p = ssm_conv1d_step_f32(4, 96).unwrap();
    assert_eq!(launch(&p), ("ssm_conv1d_step_f32", (96, 1), 64, vec![vec![4, 96]]));
    let p = delta_net_step_f32(6, 16, 2).unwrap();
    assert_eq!(launch(&p), ("delta_net_step_f32", (512, 6), 32, vec![vec![6, 16, 2, 3]]));
    assert_eq!(args(&p), vec![0, 1, 2, 3, 4, 5, 6]);
    let p = ssm_apply_gate_f32(6).unwrap();
    assert_eq!(launch(&p), ("ssm_apply_gate_f32", (6, 1), 32, vec![vec![6]]));
    let p = split_qg_per_head_f32(3, 64).unwrap();
    assert_eq!(launch(&p), ("split_qg_per_head_f32", (64, 3), 32, vec![vec![3, 64]]));
    assert_eq!(
        text(ssm_conv1d_step_f32(0, 96)),
        "Metal shape mismatch: ssm_conv1d_step_f32: kernel_size=0, conv_dim=96"
    );
    assert_eq!(
        text(delta_net_step_f32(6, 16, 4)),
        "Metal shape mismatch: delta_net_step_f32: n_v_heads=6 must be a multiple of \
         n_k_heads=4, head_dim=16"
    );
    assert_eq!(
        text(ssm_apply_gate_f32(0)),
        "Metal shape mismatch: ssm_apply_gate_f32: n_v must be > 0"
    );
    assert_eq!(
        text(split_qg_per_head_f32(3, 0)),
        "Metal shape mismatch: split_qg_per_head_f32: n_q=3, head_dim=0"
    );
    assert_eq!(
        text(rope_half_split_f32(2, 8, 3, 0)),
        "Metal shape mismatch: rope_half_split_f32: rope_dim=3 must be even and within \
         (0, head_dim=8]"
    );
}

#[test]
fn other_tilings_and_casts() {
    let p = matmul_simdgroup_f32_coarsened(true, 16, 8, 512).unwrap();
    assert_eq!(p.dispatches[0].grid, (512, 2, 1));
    assert_eq!(p.dispatches[0].group, (256, 1, 1));
    let p = matmul_simdgroup_f32_multisg(true, 16, 8, 128).unwrap();
    assert_eq!(p.dispatches[0].grid, (512, 2, 1));
    let p = matmul_bf16_in_f32_out(true, 32, 8, 256).unwrap();
    assert_eq!(p.allocs[0].bytes, 32 * 256 * 4);
    let p = cast_f32_to_bf16_pub(10).unwrap();
    assert_eq!((p.allocs[0].bytes, p.result), (20, Some(0)));
    let p = cast_bf16_to_f32_pub(10).unwrap();
    assert_eq!((p.allocs[0].bytes, p.result), (40, Some(0)));
    assert_eq!(p.dispatches[0].grid, (10, 1, 1));
    let p = mean_dim_2d_f32(3, 5, 0).unwrap();
    assert_eq!((p.allocs[0].bytes, p.dispatches[0].grid), (20, (5, 1, 1)));
    assert!(mean_dim_2d_f32(3, 5, 2).is_err());
    let p = add_bias_f32(3, 5).unwrap();
    assert_eq!(p.allocs[0].bytes, 60);
}
