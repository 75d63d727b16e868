#include <metal_stdlib>
using namespace metal;

kernel void rms_norm_per_head_gated_f32(
    device float*        x       [[buffer(0)]],
    device const float*  gamma   [[buffer(1)]],
    device const float*  z       [[buffer(2)]],
    constant uint2&      dims    [[buffer(3)]],
    constant float&      eps     [[buffer(4)]],
    uint                 tg_id   [[threadgroup_position_in_grid]],
    ushort               tiisg   [[thread_index_in_simdgroup]]
) {
    uint n_heads  = dims.x;
    uint head_dim = dims.y;
    uint head = tg_id;
    if (head >= n_heads) return;

    uint base = head * head_dim;
    float sumsq = 0.0;
    for (uint i = tiisg; i < head_dim; i += 32u) {
        float v = x[base + i];
        sumsq += v * v;
    }
    sumsq = simd_sum(sumsq);
    float inv = 1.0 / sqrt(sumsq / float(head_dim) + eps);

    for (uint i = tiisg; i < head_dim; i += 32u) {
        float zv = z[base + i];
        float silu = zv / (1.0 + exp(-zv));
        x[base + i] = x[base + i] * inv * gamma[i] * silu;
    }
}
