#include <metal_stdlib>
#include <metal_simdgroup_matrix>
using namespace metal;

kernel void matmul_simdgroup_f32_coarsened_wide_bias(
    device const float* a        [[buffer(0)]],
    device const float* b        [[buffer(1)]],
    device const float* bias     [[buffer(2)]],
    device       float* c        [[buffer(3)]],
    constant     uint3& dims     [[buffer(4)]],
    uint2 tg_pos                 [[threadgroup_position_in_grid]],
    uint  sg_idx                 [[simdgroup_index_in_threadgroup]],
    uint  lane                   [[thread_index_in_simdgroup]]
) {
    uint M = dims.x;
    uint K = dims.y;
    uint N = dims.z;

    uint sg_row = sg_idx / 8u;
    uint sg_col = sg_idx % 8u;
    uint row_tile = tg_pos.y * 16u + sg_row * 8u;
    uint col_base = tg_pos.x * 256u + sg_col * 32u;
    if (row_tile >= M || col_base >= N) { return; }

    simdgroup_matrix<float, 8, 8> mat_a;
    simdgroup_matrix<float, 8, 8> mat_b0;
    simdgroup_matrix<float, 8, 8> mat_b1;
    simdgroup_matrix<float, 8, 8> mat_b2;
    simdgroup_matrix<float, 8, 8> mat_b3;
    simdgroup_matrix<float, 8, 8> mat_c0 = simdgroup_matrix<float, 8, 8>(0);
    simdgroup_matrix<float, 8, 8> mat_c1 = simdgroup_matrix<float, 8, 8>(0);
    simdgroup_matrix<float, 8, 8> mat_c2 = simdgroup_matrix<float, 8, 8>(0);
    simdgroup_matrix<float, 8, 8> mat_c3 = simdgroup_matrix<float, 8, 8>(0);

    for (uint k = 0u; k < K; k += 8u) {
        simdgroup_load(mat_a, a + row_tile * K + k, K);
        simdgroup_load(mat_b0, b + k * N + col_base + 0u,  N);
        simdgroup_load(mat_b1, b + k * N + col_base + 8u,  N);
        simdgroup_load(mat_b2, b + k * N + col_base + 16u, N);
        simdgroup_load(mat_b3, b + k * N + col_base + 24u, N);
        simdgroup_multiply_accumulate(mat_c0, mat_a, mat_b0, mat_c0);
        simdgroup_multiply_accumulate(mat_c1, mat_a, mat_b1, mat_c1);
        simdgroup_multiply_accumulate(mat_c2, mat_a, mat_b2, mat_c2);
        simdgroup_multiply_accumulate(mat_c3, mat_a, mat_b3, mat_c3);
    }

    threadgroup float tile[16 * 256];
    threadgroup float* base = &tile[(sg_row * 8u) * 256u + sg_col * 32u];
    simdgroup_store(mat_c0, base + 0u,  256u);
    simdgroup_store(mat_c1, base + 8u,  256u);
    simdgroup_store(mat_c2, base + 16u, 256u);
    simdgroup_store(mat_c3, base + 24u, 256u);
    threadgroup_barrier(mem_flags::mem_threadgroup);

    uint lid = sg_idx * 32u + lane;
    uint global_row_base = tg_pos.y * 16u;
    uint global_col_base = tg_pos.x * 256u;
    for (uint k = 0u; k < 8u; ++k) {
        uint flat = lid * 8u + k;
        uint r = flat / 256u;
        uint co = flat % 256u;
        uint gr = global_row_base + r;
        uint gc = global_col_base + co;
        if (gr < M && gc < N) {
            c[gr * N + gc] = tile[r * 256u + co] + bias[gc];
        }
    }
}
