#include <metal_stdlib>
using namespace metal;

kernel void rms_norm_per_head_batched_f32(
    device float* x           [[buffer(0)]],
    device const float* gamma [[buffer(1)]],
    constant uint3& dims      [[buffer(2)]],
    constant float& eps       [[buffer(3)]],
    uint tg_flat              [[threadgroup_position_in_grid]],
    uint tid                  [[thread_position_in_threadgroup]],
    uint sg_size              [[threads_per_simdgroup]]
) {
    uint n_heads = dims.x;
    uint head_dim = dims.y;
    uint B        = dims.z;
    uint total_tg = n_heads * B;
    if (tg_flat >= total_tg) return;

    uint h = tg_flat % n_heads;
    uint b = tg_flat / n_heads;

    device float* head = x + (b * n_heads + h) * head_dim;
    float partial = 0.0;
    for (uint i = tid; i < head_dim; i += sg_size) {
        float v = head[i];
        partial += v * v;
    }
    float total = simd_sum(partial);
    float inv_rms = 1.0 / sqrt(total / float(head_dim) + eps);
    for (uint i = tid; i < head_dim; i += sg_size) {
        head[i] = head[i] * inv_rms * gamma[i];
    }
}
