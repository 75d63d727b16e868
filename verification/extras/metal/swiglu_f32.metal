#include <metal_stdlib>
using namespace metal;

kernel void swiglu_f32(
    device const float* gate [[buffer(0)]],
    device const float* up   [[buffer(1)]],
    device float* y          [[buffer(2)]],
    constant uint& f         [[buffer(3)]],
    uint gid [[thread_position_in_grid]]
) {
    if (gid >= f) return;
    float g = gate[gid];
    float s = g / (1.0 + exp(-g));
    y[gid] = s * up[gid];
}
