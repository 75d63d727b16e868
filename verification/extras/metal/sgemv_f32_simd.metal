#include <metal_stdlib>
using namespace metal;

kernel void sgemv_f32_simd(
    device const float* x  [[buffer(0)]],
    device const float* w  [[buffer(1)]],
    device float* y        [[buffer(2)]],
    constant uint2& dims   [[buffer(3)]],
    uint gid               [[thread_position_in_grid]]
) {
    uint K = dims.x;
    uint N = dims.y;
    uint n_idx = gid;
    if (n_idx >= N) return;

    float sum = 0.0;
    for (uint k = 0; k < K; ++k) {
        sum += x[k] * w[k * N + n_idx];
    }
    y[n_idx] = sum;
}
