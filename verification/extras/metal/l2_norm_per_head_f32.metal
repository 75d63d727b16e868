#include <metal_stdlib>
using namespace metal;

kernel void l2_norm_per_head_f32(
    device float*       x      [[buffer(0)]],
    constant uint2&     dims   [[buffer(1)]],
    constant float&     eps    [[buffer(2)]],
    uint                tg_id  [[threadgroup_position_in_grid]],
    ushort              tiisg  [[thread_index_in_simdgroup]]
) {
    uint n_heads  = dims.x;
    uint head_dim = dims.y;
    uint head     = tg_id;
    if (head >= n_heads) return;

    uint base = head * head_dim;

    float ss = 0.0;
    for (uint i = tiisg; i < head_dim; i += 32u) {
        float v = x[base + i];
        ss += v * v;
    }
    ss = simd_sum(ss);
    float inv = 1.0 / sqrt(ss + eps);

    for (uint i = tiisg; i < head_dim; i += 32u) {
        x[base + i] = x[base + i] * inv;
    }
}
