#include <metal_stdlib>
using namespace metal;

kernel void swiglu_batched_f32(
    device const float* gate [[buffer(0)]],
    device const float* up   [[buffer(1)]],
    device float* y          [[buffer(2)]],
    constant uint2& dims     [[buffer(3)]],
    uint gid [[thread_position_in_grid]]
) {
    uint f = dims.x;
    uint B = dims.y;
    uint total = f * B;
    if (gid >= total) return;
    float g = gate[gid];
    float s = g / (1.0 + exp(-g));
    y[gid] = s * up[gid];
}
