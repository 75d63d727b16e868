#include <metal_stdlib>
using namespace metal;

kernel void rms_norm_f32(
    device const float* x     [[buffer(0)]],
    device const float* gamma [[buffer(1)]],
    device float* y           [[buffer(2)]],
    constant uint& d          [[buffer(3)]],
    constant float& eps       [[buffer(4)]],
    uint tid                  [[thread_position_in_threadgroup]],
    uint sg_size              [[threads_per_simdgroup]]
) {
    float partial = 0.0;
    uint d4 = d / 4u;

    device const float4* x4 = (device const float4*)x;
    for (uint i = tid; i < d4; i += sg_size) {
        float4 v = x4[i];
        partial += v.x * v.x + v.y * v.y + v.z * v.z + v.w * v.w;
    }
    uint tail_start = d4 * 4u;
    for (uint i = tail_start + tid; i < d; i += sg_size) {
        float v = x[i];
        partial += v * v;
    }

    float total = simd_sum(partial);
    float inv_rms = 1.0 / sqrt(total / float(d) + eps);

    device const float4* g4 = (device const float4*)gamma;
    device float4* y4 = (device float4*)y;
    for (uint i = tid; i < d4; i += sg_size) {
        float4 v = x4[i];
        float4 g = g4[i];
        y4[i] = float4(v.x * inv_rms * g.x,
                       v.y * inv_rms * g.y,
                       v.z * inv_rms * g.z,
                       v.w * inv_rms * g.w);
    }
    for (uint i = tail_start + tid; i < d; i += sg_size) {
        y[i] = x[i] * inv_rms * gamma[i];
    }
}
