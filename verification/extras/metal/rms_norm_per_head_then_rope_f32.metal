#include <metal_stdlib>
using namespace metal;

kernel void rms_norm_per_head_then_rope_f32(
    device float* x              [[buffer(0)]],
    device const float* gamma    [[buffer(1)]],
    device const float* cos_tab  [[buffer(2)]],
    device const float* sin_tab  [[buffer(3)]],
    constant uint3& dims         [[buffer(4)]],
    constant float& eps          [[buffer(5)]],
    uint h                       [[threadgroup_position_in_grid]],
    uint tid                     [[thread_position_in_threadgroup]],
    uint sg_size                 [[threads_per_simdgroup]]
) {
    uint n_heads  = dims.x;
    uint head_dim = dims.y;
    uint position = dims.z;
    if (h >= n_heads) return;

    device float* head = x + h * head_dim;

    float partial = 0.0;
    for (uint i = tid; i < head_dim; i += sg_size) {
        float v = head[i];
        partial += v * v;
    }
    float total = simd_sum(partial);
    float inv_rms = 1.0 / sqrt(total / float(head_dim) + eps);
    for (uint i = tid; i < head_dim; i += sg_size) {
        head[i] = head[i] * inv_rms * gamma[i];
    }

    threadgroup_barrier(mem_flags::mem_threadgroup);
    uint half_dim = head_dim / 2u;
    for (uint k = tid; k < half_dim; k += sg_size) {
        uint i0 = k;
        uint i1 = k + half_dim;
        uint tab_off = position * half_dim + k;
        float c = cos_tab[tab_off];
        float s = sin_tab[tab_off];
        float x0 = head[i0];
        float x1 = head[i1];
        head[i0] = x0 * c - x1 * s;
        head[i1] = x1 * c + x0 * s;
    }
}
